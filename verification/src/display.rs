//! The texts the watch list screen shows.
use vstd::prelude::*;

use crate::app::{App, AppView, InputMode};
use crate::listing::SortColumn;
use crate::models::{ModeView, TrackingMode, Watch, WatchView};
use crate::text::{chars_of, copy_range, decimal_digits, decimal_string, string_of, text_of};

verus! {

/// How many characters of a value the list shows before cutting it.
pub const SNIPPET_CHARS: usize = 30;

/// The name column: a dot marks an unread change.
pub open spec fn name_cell(w: WatchView) -> Seq<char> {
    if w.has_unread_change {
        "\u{25cf} "@ + w.name
    } else {
        w.name
    }
}

/// The mode column.
pub open spec fn mode_cell(m: ModeView) -> Seq<char> {
    match m {
        ModeView::FullPage => "Full Text"@,
        ModeView::Price { .. } => "Price"@,
        ModeView::Availability { .. } => "Available"@,
        ModeView::Keyword { .. } => "Keywords"@,
        ModeView::HtmlSection { .. } => "Section"@,
    }
}

/// The value column: the last error, else the last value cut to
/// `SNIPPET_CHARS` characters, else a placeholder.
pub open spec fn value_cell(w: WatchView) -> Seq<char> {
    match w.last_error {
        Some(e) => "Error: "@ + e,
        None => match w.last_value {
            Some(v) => if v.len() > SNIPPET_CHARS {
                v.take(SNIPPET_CHARS as int) + "..."@
            } else {
                v
            },
            None => "Pending..."@,
        },
    }
}

pub open spec fn column_name(c: SortColumn) -> Seq<char> {
    match c {
        SortColumn::Name => "Name"@,
        SortColumn::LastChecked => "LastChecked"@,
        SortColumn::SuccessRate => "SuccessRate"@,
    }
}

/// The title of the list: how many watches are shown of how many, the sort
/// and whether checks are paused.
pub open spec fn list_title(s: AppView, shown: usize) -> Seq<char> {
    " Watches ("@ + decimal_digits(shown as nat) + "/"@ + decimal_digits(s.watches.len()) + ") - Sorting by "@
        + column_name(s.sort_column) + " "@ + (if s.sort_ascending {
        "\u{25b2}"@
    } else {
        "\u{25bc}"@
    }) + " "@ + (if s.is_paused {
        "- PAUSED"@
    } else {
        ""@
    }) + " "@
}

/// The status line: pending checks first, else the keys of the current mode.
pub open spec fn status_line(s: AppView) -> Seq<char> {
    if s.pending_checks > 0 {
        "Checking "@ + decimal_digits(s.pending_checks as nat) + " watch(es)... (UI is responsive)"@
    } else {
        match s.input_mode {
            InputMode::Normal => "q:quit n:add e:edit c:check d:del /:search p:pause s:sort"@,
            InputMode::Editing => "Editing: 'Enter' to next/submit, 'Esc' to cancel."@,
            InputMode::Details => "Details: 'Esc' to go back, 'Up'/'Down' to scroll."@,
            InputMode::ConfirmDelete => "Are you sure? 'y' to delete, 'n' to cancel."@,
            InputMode::Search => "Searching: Type to filter, 'Enter' or 'Esc' to finish."@,
        }
    }
}

fn decimal_text(n: u64) -> (r: String)
    ensures
        r@ == decimal_digits(n as nat),
{
    string_of(&decimal_string(n))
}

/// The name column of a watch.
pub fn name_cell_text(w: &Watch) -> (r: String)
    ensures
        r@ == name_cell(w@),
{
    if w.has_unread_change {
        let mut r = text_of("\u{25cf} ");
        r.append(w.name.as_str());
        r
    } else {
        w.name.clone()
    }
}

/// The mode column of a watch.
pub fn mode_cell_text(m: &TrackingMode) -> (r: &'static str)
    ensures
        r@ == mode_cell(m@),
{
    match m {
        TrackingMode::FullPage => "Full Text",
        TrackingMode::Price { .. } => "Price",
        TrackingMode::Availability { .. } => "Available",
        TrackingMode::Keyword { .. } => "Keywords",
        TrackingMode::HtmlSection { .. } => "Section",
    }
}

/// The value column of a watch.
pub fn value_cell_text(w: &Watch) -> (r: String)
    ensures
        r@ == value_cell(w@),
{
    match &w.last_error {
        Some(e) => {
            let mut r = text_of("Error: ");
            r.append(e.as_str());
            r
        },
        None => match &w.last_value {
            Some(v) => {
                let cs = chars_of(v.as_str());
                if cs.len() > SNIPPET_CHARS {
                    let mut r = string_of(&copy_range(&cs, 0, SNIPPET_CHARS));
                    r.append("...");
                    assert(cs@.subrange(0, SNIPPET_CHARS as int) =~= cs@.take(SNIPPET_CHARS as int));
                    r
                } else {
                    v.clone()
                }
            },
            None => text_of("Pending..."),
        },
    }
}

impl App {
    /// The title of the list when `shown` watches are listed.
    pub fn list_title_text(&self, shown: usize) -> (r: String)
        ensures
            r@ == list_title(self@, shown),
    {
        let mut r = text_of(" Watches (");
        r.append(decimal_text(shown as u64).as_str());
        r.append("/");
        r.append(decimal_text(self.watches.len() as u64).as_str());
        r.append(") - Sorting by ");
        r.append(
            match self.sort_column {
                SortColumn::Name => "Name",
                SortColumn::LastChecked => "LastChecked",
                SortColumn::SuccessRate => "SuccessRate",
            },
        );
        r.append(" ");
        r.append(
            if self.sort_ascending {
                "\u{25b2}"
            } else {
                "\u{25bc}"
            },
        );
        r.append(" ");
        r.append(
            if self.is_paused {
                "- PAUSED"
            } else {
                ""
            },
        );
        r.append(" ");
        r
    }

    /// The status line.
    pub fn status_text(&self) -> (r: String)
        ensures
            r@ == status_line(self@),
    {
        if self.pending_checks > 0 {
            let mut r = text_of("Checking ");
            r.append(decimal_text(self.pending_checks as u64).as_str());
            r.append(" watch(es)... (UI is responsive)");
            r
        } else {
            text_of(
                match self.input_mode {
                    InputMode::Normal => "q:quit n:add e:edit c:check d:del /:search p:pause s:sort",
                    InputMode::Editing => "Editing: 'Enter' to next/submit, 'Esc' to cancel.",
                    InputMode::Details => "Details: 'Esc' to go back, 'Up'/'Down' to scroll.",
                    InputMode::ConfirmDelete => "Are you sure? 'y' to delete, 'n' to cancel.",
                    InputMode::Search => "Searching: Type to filter, 'Enter' or 'Esc' to finish.",
                },
            )
        }
    }

    /// The form has the advanced field: for keywords and for a section.
    pub fn shows_advanced_field(&self) -> (r: bool)
        ensures
            r == (self.mode_selection == 3 || self.mode_selection == 4),
    {
        self.mode_selection == 3 || self.mode_selection == 4
    }

    /// The title of the form.
    pub fn form_title(&self) -> (r: &'static str)
        ensures
            r@ == (if self.editing_watch_index is Some {
                "Edit Watch"@
            } else {
                "Add New Watch"@
            }),
    {
        if self.editing_watch_index.is_some() {
            "Edit Watch"
        } else {
            "Add New Watch"
        }
    }

    /// The title of the form's advanced field.
    pub fn advanced_field_title(&self) -> (r: &'static str)
        ensures
            r@ == (if self.mode_selection == 3 {
                "Keywords (comma-separated)"@
            } else {
                "CSS Selector"@
            }),
    {
        if self.mode_selection == 3 {
            "Keywords (comma-separated)"
        } else {
            "CSS Selector"
        }
    }
}

} // verus!
