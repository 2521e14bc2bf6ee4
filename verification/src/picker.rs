use crate::wallpapers::{filtered, fuzzy_matches, lemma_matching_indices, matching_indices, Wallpaper};
use vstd::prelude::*;

verus! {

/// The keys that navigate the list or confirm the highlighted wallpaper.
#[derive(Debug, Clone, Copy, PartialEq, Eq)]
pub enum NavKey {
    Enter,
    ArrowDown,
    ArrowUp,
    Tab,
    Other,
}

/// One key press of a frame, with whether Shift was held.
#[derive(Debug, Clone, Copy, PartialEq, Eq)]
pub struct KeyPress {
    pub key: NavKey,
    pub shift: bool,
}

/// What the keyboard asks of the window after a frame's key presses.
#[derive(Debug, Clone, Copy, PartialEq, Eq)]
pub enum KeyboardAction {
    /// Nothing beyond the selection changes.
    Nothing,
    /// Escape: close the picker.
    Close,
    /// Enter: apply the wallpaper at this position of the wallpaper list.
    Apply(usize),
}

/// One row of the rendered list.
#[derive(Debug, Clone, Copy, PartialEq, Eq)]
pub struct ListRow {
    /// Position of the row's wallpaper in the wallpaper list.
    pub wall_idx: usize,
    /// The row is the highlighted one (the one the preview shows).
    pub selected: bool,
    /// The list should scroll this row into view.
    pub scroll_to: bool,
}

/// The picker's search, selection and list state.
pub struct PickerState {
    pub query: String,
    /// Selected row of the filtered list; `None` while the search field has
    /// the focus and nothing has been picked yet.
    pub selected_idx: Option<usize>,
    pub wallpapers: Vec<Wallpaper>,
    pub focus_search: bool,
    pub scroll_to_selected: bool,
}

/// The selection after moving by `delta` rows in a list of `count > 0` rows:
/// from no selection, moving down selects the first row and moving up keeps
/// none; from row `i`, moving above the first row clears the selection and
/// moving past the last row stays on the last row.
pub open spec fn next_selection(sel: Option<usize>, delta: i32, count: usize) -> Option<usize> {
    match sel {
        None => if delta > 0 {
            Some(0usize)
        } else {
            None
        },
        Some(i) => {
            let next = (i as i32) + delta;
            if next < 0 {
                None
            } else if next <= count - 1 {
                Some(next as usize)
            } else {
                Some((count - 1) as usize)
            }
        },
    }
}

/// `move_selection` cannot overflow from `sel` by `delta`.
pub open spec fn step_in_range(sel: Option<usize>, delta: i32) -> bool {
    sel matches Some(i) ==> i32::MIN <= (i as i32) + delta <= i32::MAX
}

/// The row that the preview shows: the selected row, or the first row when
/// nothing is selected.
pub open spec fn preview_row(sel: Option<usize>) -> int {
    match sel {
        Some(r) => r as int,
        None => 0,
    }
}

/// The wallpaper position that the preview shows for selection `sel` over
/// the filtered positions `f`; `None` when the preview row does not exist.
pub open spec fn preview_at(sel: Option<usize>, f: Seq<usize>) -> Option<usize> {
    let row = preview_row(sel);
    if row < f.len() {
        Some(f[row])
    } else {
        None
    }
}

/// The rows a key press moves by: ↓ and Tab one down, ↑ and Shift+Tab one
/// up, any other key none.
pub open spec fn key_delta(press: KeyPress) -> i32 {
    match press.key {
        NavKey::ArrowDown => 1i32,
        NavKey::Tab => if press.shift {
            -1i32
        } else {
            1i32
        },
        NavKey::ArrowUp => -1i32,
        _ => 0i32,
    }
}

/// The selection after one key press, with `count` filtered rows.
pub open spec fn key_selection(sel: Option<usize>, press: KeyPress, count: usize) -> Option<usize> {
    let delta = key_delta(press);
    if delta == 0 || count == 0 {
        sel
    } else {
        next_selection(sel, delta, count)
    }
}

/// No move of the frame's key presses overflows the `i32` arithmetic of
/// `move_selection`.
pub open spec fn keys_in_range(sel: Option<usize>, presses: Seq<KeyPress>, count: usize) -> bool
    decreases presses.len(),
{
    if presses.len() == 0 {
        true
    } else {
        let before = keys_selection(sel, presses.drop_last(), count);
        let delta = key_delta(presses.last());
        &&& keys_in_range(sel, presses.drop_last(), count)
        &&& (count > 0 && delta != 0 ==> step_in_range(before, delta))
    }
}

/// The key moves the selection (when the list is not empty).
pub open spec fn is_move_key(press: KeyPress) -> bool {
    press.key is ArrowDown || press.key is ArrowUp || press.key is Tab
}

/// The selection after a frame's key presses, in order.
pub open spec fn keys_selection(sel: Option<usize>, presses: Seq<KeyPress>, count: usize) -> Option<
    usize,
>
    decreases presses.len(),
{
    if presses.len() == 0 {
        sel
    } else {
        key_selection(keys_selection(sel, presses.drop_last(), count), presses.last(), count)
    }
}

/// The wallpaper that the frame's last Enter press asks to apply: what the
/// preview showed at that press; `None` when no Enter was pressed or the
/// preview was empty then.
pub open spec fn keys_apply(
    sel: Option<usize>,
    presses: Seq<KeyPress>,
    count: usize,
    f: Seq<usize>,
) -> Option<usize>
    decreases presses.len(),
{
    if presses.len() == 0 {
        None
    } else if presses.last().key is Enter {
        preview_at(keys_selection(sel, presses.drop_last(), count), f)
    } else {
        keys_apply(sel, presses.drop_last(), count, f)
    }
}

/// Some press of the frame moves the selection.
pub open spec fn keys_move(presses: Seq<KeyPress>) -> bool {
    exists|j: int| 0 <= j < presses.len() && is_move_key(#[trigger] presses[j])
}

/// Whether a move by `delta` from `sel` stays within `i32`.
fn step_fits(sel: Option<usize>, delta: i32) -> (res: bool)
    ensures
        res == step_in_range(sel, delta),
{
    match sel {
        None => true,
        Some(i) => {
            let start: i32 = i as i32;
            let sum: i64 = start as i64 + delta as i64;
            i32::MIN as i64 <= sum && sum <= i32::MAX as i64
        },
    }
}

/// The selection after a move by `delta` in a list of `count > 0` rows.
fn step_selection(sel: Option<usize>, delta: i32, count: usize) -> (res: Option<usize>)
    requires
        count > 0,
        step_in_range(sel, delta),
    ensures
        res == next_selection(sel, delta, count),
{
    match sel {
        None => if delta > 0 {
            Some(0)
        } else {
            None
        },
        Some(i) => {
            let next: i32 = i as i32 + delta;
            if next < 0 {
                None
            } else {
                let n: usize = next as usize;
                if n <= count - 1 {
                    Some(n)
                } else {
                    Some(count - 1)
                }
            }
        },
    }
}

/// How many rows a key press moves by.
fn delta_of(press: KeyPress) -> (res: i32)
    ensures
        res == key_delta(press),
{
    match press.key {
        NavKey::ArrowDown => 1,
        NavKey::Tab => if press.shift {
            -1
        } else {
            1
        },
        NavKey::ArrowUp => -1,
        _ => 0,
    }
}

/// The presses of a frame fit in `i32` only if each of their prefixes does.
proof fn lemma_keys_in_range_prefix(sel: Option<usize>, presses: Seq<KeyPress>, count: usize, n: int)
    requires
        0 <= n <= presses.len(),
    ensures
        keys_in_range(sel, presses, count) ==> keys_in_range(sel, presses.take(n), count),
    decreases presses.len(),
{
    if n == presses.len() {
        assert(presses.take(n) =~= presses);
    } else {
        lemma_keys_in_range_prefix(sel, presses.drop_last(), count, n);
        assert(presses.drop_last().take(n) =~= presses.take(n));
    }
}

impl PickerState {
    /// The positions of the wallpapers that the query matches.
    pub open spec fn filtered_spec(&self) -> Seq<usize> {
        matching_indices(self.wallpapers@, self.query@)
    }

    /// The wallpaper position that the preview pane shows.
    pub open spec fn preview_spec(&self) -> Option<usize> {
        preview_at(self.selected_idx, self.filtered_spec())
    }

    /// A fresh picker over `wallpapers`: empty query, nothing selected, the
    /// search field about to take the focus.
    pub fn new(wallpapers: Vec<Wallpaper>) -> (res: Self)
        ensures
            res.query@ == Seq::<char>::empty(),
            res.selected_idx is None,
            res.wallpapers@ == wallpapers@,
            res.focus_search,
            !res.scroll_to_selected,
    {
        PickerState {
            query: String::new(),
            selected_idx: None,
            wallpapers,
            focus_search: true,
            scroll_to_selected: false,
        }
    }

    /// Positions of the wallpapers matching the current query, in order.
    pub fn filtered(&self) -> (res: Vec<usize>)
        ensures
            res@ == self.filtered_spec(),
    {
        filtered(self.wallpapers.as_slice(), self.query.as_str())
    }

    /// Position of the wallpaper shown in the preview pane: the selected row,
    /// or the first match when nothing is selected yet (what Enter would
    /// apply).
    pub fn preview_index(&self) -> (res: Option<usize>)
        ensures
            res == self.preview_spec(),
            res matches Some(i) ==> i < self.wallpapers@.len(),
    {
        let f = self.filtered();
        let total: usize = self.wallpapers.len();
        proof {
            assert(total == self.wallpapers@.len());
            lemma_matching_indices(self.wallpapers@, self.query@);
        }
        let row = match self.selected_idx {
            Some(r) => r,
            None => 0,
        };
        if row < f.len() {
            Some(f[row])
        } else {
            None
        }
    }

    /// The wallpaper shown in the preview pane.
    pub fn preview_wall(&self) -> (res: Option<&Wallpaper>)
        ensures
            match self.preview_spec() {
                Some(i) => res == Some(&self.wallpapers@[i as int]),
                None => res is None,
            },
    {
        match self.preview_index() {
            Some(i) => Some(&self.wallpapers[i]),
            None => None,
        }
    }

    /// Moves the selection by `delta` rows within a list of `count` rows.
    pub fn move_selection(&mut self, delta: i32, count: usize)
        requires
            count > 0 ==> step_in_range(old(self).selected_idx, delta),
        ensures
            count == 0 ==> *final(self) == *old(self),
            count > 0 ==> final(self).selected_idx == next_selection(
                old(self).selected_idx,
                delta,
                count,
            ) && final(self).scroll_to_selected,
            count > 0 ==> (final(self).selected_idx matches Some(k) ==> k < count),
            final(self).query == old(self).query,
            final(self).wallpapers == old(self).wallpapers,
            final(self).focus_search == old(self).focus_search,
    {
        if count == 0 {
            return ;
        }
        proof {
            lemma_selection_stays_in_list(self.selected_idx, delta, count);
        }
        self.scroll_to_selected = true;
        self.selected_idx = step_selection(self.selected_idx, delta, count);
    }

    /// Whether a frame's key presses move the selection only within the
    /// `i32` arithmetic of `move_selection`.
    pub fn keys_stay_in_range(&self, presses: &Vec<KeyPress>) -> (res: bool)
        ensures
            res == keys_in_range(self.selected_idx, presses@, self.filtered_spec().len() as usize),
    {
        let count = self.filtered().len();
        let ghost sel0 = self.selected_idx;
        let mut sel = self.selected_idx;
        let n = presses.len();
        let mut j: usize = 0;
        while j < n
            invariant
                n == presses@.len(),
                j <= n,
                count as int == self.filtered_spec().len(),
                sel0 == self.selected_idx,
                sel == keys_selection(sel0, presses@.take(j as int), count),
                keys_in_range(sel0, presses@.take(j as int), count),
            decreases n - j,
        {
            let press = presses[j];
            assert(presses@.take(j + 1).drop_last() =~= presses@.take(j as int));
            assert(presses@.take(j + 1).last() == press);
            let delta = delta_of(press);
            if count > 0 && delta != 0 {
                if !step_fits(sel, delta) {
                    proof {
                        lemma_keys_in_range_prefix(sel0, presses@, count, j + 1);
                    }
                    return false;
                }
                sel = step_selection(sel, delta, count);
            }
            j = j + 1;
        }
        assert(presses@.take(n as int) =~= presses@);
        true
    }

    /// Applies a frame's keyboard input: `escape` (Escape pressed without
    /// modifiers) closes the picker before anything else; otherwise the key
    /// presses are taken in order: ↓ and Tab move down, ↑ and Shift+Tab move
    /// up, and Enter picks the wallpaper that the preview shows at that point.
    pub fn handle_keyboard(&mut self, escape: bool, presses: &Vec<KeyPress>) -> (res:
        KeyboardAction)
        requires
            !escape ==> keys_in_range(
                old(self).selected_idx,
                presses@,
                old(self).filtered_spec().len() as usize,
            ),
        ensures
            escape ==> res == KeyboardAction::Close && *final(self) == *old(self),
            !escape ==> {
                let count = old(self).filtered_spec().len() as usize;
                &&& final(self).selected_idx == keys_selection(
                    old(self).selected_idx,
                    presses@,
                    count,
                )
                &&& final(self).scroll_to_selected == (old(self).scroll_to_selected || (count > 0
                    && keys_move(presses@)))
                &&& res == match keys_apply(
                    old(self).selected_idx,
                    presses@,
                    count,
                    old(self).filtered_spec(),
                ) {
                    Some(i) => KeyboardAction::Apply(i),
                    None => KeyboardAction::Nothing,
                }
            },
            final(self).query == old(self).query,
            final(self).wallpapers == old(self).wallpapers,
            final(self).focus_search == old(self).focus_search,
    {
        if escape {
            return KeyboardAction::Close;
        }
        let count = self.filtered().len();
        let total: usize = self.wallpapers.len();
        proof {
            lemma_matching_indices(self.wallpapers@, self.query@);
        }
        let ghost sel0 = self.selected_idx;
        let ghost scroll0 = self.scroll_to_selected;
        let ghost f = self.filtered_spec();
        let ghost query0 = self.query;
        let ghost walls0 = self.wallpapers;
        let ghost focus0 = self.focus_search;
        let mut apply: Option<usize> = None;
        let n = presses.len();
        let mut j: usize = 0;
        while j < n
            invariant
                n == presses@.len(),
                j <= n,
                total == self.wallpapers@.len(),
                count as int == f.len(),
                count <= total,
                keys_in_range(sel0, presses@, count),
                self.query == query0,
                self.wallpapers == walls0,
                self.focus_search == focus0,
                f == self.filtered_spec(),
                self.selected_idx == keys_selection(sel0, presses@.take(j as int), count),
                apply == keys_apply(sel0, presses@.take(j as int), count, f),
                self.scroll_to_selected == (scroll0 || (count > 0 && keys_move(
                    presses@.take(j as int),
                ))),
            decreases n - j,
        {
            let press = presses[j];
            let ghost prefix = presses@.take(j as int);
            assert(presses@.take(j + 1).drop_last() =~= prefix);
            assert(presses@.take(j + 1).last() == press);
            proof {
                lemma_keys_in_range_prefix(sel0, presses@, count, j + 1);
            }
            match press.key {
                NavKey::Enter => {
                    apply = self.preview_index();
                },
                NavKey::ArrowDown => {
                    self.move_selection(1, count);
                },
                NavKey::Tab => {
                    if press.shift {
                        self.move_selection(-1, count);
                    } else {
                        self.move_selection(1, count);
                    }
                },
                NavKey::ArrowUp => {
                    self.move_selection(-1, count);
                },
                NavKey::Other => {},
            }
            proof {
                let next = presses@.take(j + 1);
                if is_move_key(press) {
                    assert(is_move_key(next[j as int]));
                }
                if keys_move(prefix) {
                    let w = choose|w: int| 0 <= w < prefix.len() && is_move_key(#[trigger] prefix[w]);
                    assert(is_move_key(next[w]));
                }
                if keys_move(next) {
                    let w = choose|w: int| 0 <= w < next.len() && is_move_key(#[trigger] next[w]);
                    if w < j {
                        assert(is_move_key(prefix[w]));
                    }
                }
            }
            j = j + 1;
        }
        assert(presses@.take(n as int) =~= presses@);
        match apply {
            Some(i) => KeyboardAction::Apply(i),
            None => KeyboardAction::Nothing,
        }
    }

    /// The rows of the list, in filtered order, each with whether it is the
    /// highlighted row and whether to scroll it into view; a pending scroll
    /// request is used up.
    pub fn list_rows(&mut self) -> (rows: Vec<ListRow>)
        ensures
            rows@.len() == old(self).filtered_spec().len(),
            forall|k: int|
                0 <= k < rows@.len() ==> {
                    &&& (#[trigger] rows@[k]).wall_idx == old(self).filtered_spec()[k]
                    &&& rows@[k].selected == (k == preview_row(old(self).selected_idx))
                    &&& rows@[k].scroll_to == (k == preview_row(old(self).selected_idx)
                        && old(self).scroll_to_selected)
                },
            !final(self).scroll_to_selected,
            final(self).selected_idx == old(self).selected_idx,
            final(self).query == old(self).query,
            final(self).wallpapers == old(self).wallpapers,
            final(self).focus_search == old(self).focus_search,
    {
        let f = self.filtered();
        let preview_row = match self.selected_idx {
            Some(r) => r,
            None => 0,
        };
        let scroll = self.scroll_to_selected;
        self.scroll_to_selected = false;
        let mut rows: Vec<ListRow> = Vec::new();
        let n = f.len();
        let mut row: usize = 0;
        while row < n
            invariant
                n == f@.len(),
                row <= n,
                rows@.len() == row,
                forall|k: int|
                    0 <= k < row ==> {
                        &&& (#[trigger] rows@[k]).wall_idx == f@[k]
                        &&& rows@[k].selected == (k == preview_row)
                        &&& rows@[k].scroll_to == (k == preview_row && scroll)
                    },
            decreases n - row,
        {
            let selected = row == preview_row;
            rows.push(ListRow { wall_idx: f[row], selected, scroll_to: selected && scroll });
            row = row + 1;
        }
        rows
    }

    /// Whether the search field takes the keyboard focus this frame: on the
    /// first frame, and whenever nothing is selected. The first-frame request
    /// is used up.
    pub fn take_search_focus(&mut self) -> (focus: bool)
        ensures
            focus == (old(self).focus_search || old(self).selected_idx is None),
            !final(self).focus_search,
            final(self).selected_idx == old(self).selected_idx,
            final(self).query == old(self).query,
            final(self).wallpapers == old(self).wallpapers,
            final(self).scroll_to_selected == old(self).scroll_to_selected,
    {
        let focus = self.focus_search || self.selected_idx.is_none();
        self.focus_search = false;
        focus
    }

    /// An edit of the query clears the selection, so the preview goes back
    /// to the first match.
    pub fn query_changed(&mut self)
        ensures
            final(self).selected_idx is None,
            final(self).query == old(self).query,
            final(self).wallpapers == old(self).wallpapers,
            final(self).focus_search == old(self).focus_search,
            final(self).scroll_to_selected == old(self).scroll_to_selected,
    {
        self.selected_idx = None;
    }
}

/// Navigation never leaves the list: in a non-empty list, a move ends on no
/// row or on one of the `count` rows.
pub proof fn lemma_selection_stays_in_list(sel: Option<usize>, delta: i32, count: usize)
    requires
        count > 0,
    ensures
        next_selection(sel, delta, count) matches Some(i) ==> i < count,
{
}

/// With nothing selected, moving down selects the first row and moving up
/// keeps the focus in the search field.
pub proof fn lemma_move_from_search(count: usize)
    requires
        count > 0,
    ensures
        next_selection(None, 1i32, count) == Some(0usize),
        next_selection(None, -1i32, count) is None,
{
}

/// Moving up from the first row gives the focus back to the search field.
pub proof fn lemma_up_from_first_row(count: usize)
    requires
        count > 0,
    ensures
        next_selection(Some(0usize), -1i32, count) is None,
{
}

/// Moving down from the last row stays on the last row.
pub proof fn lemma_down_stays_on_last_row(count: usize)
    requires
        0 < count <= i32::MAX,
    ensures
        next_selection(Some((count - 1) as usize), 1i32, count) == Some((count - 1) as usize),
{
}

/// Moving down and then up returns to the same row, unless the first move
/// was stopped by the end of the list.
pub proof fn lemma_down_then_up(i: usize, count: usize)
    requires
        i + 1 < count,
        i + 1 < i32::MAX,
    ensures
        next_selection(next_selection(Some(i), 1i32, count), -1i32, count) == Some(i),
{
}

/// Enter applies the wallpaper that the preview pane shows.
pub proof fn lemma_enter_applies_preview(sel: Option<usize>, shift: bool, count: usize, f: Seq<usize>)
    ensures
        keys_apply(sel, seq![KeyPress { key: NavKey::Enter, shift }], count, f) == preview_at(sel, f),
{
    let presses = seq![KeyPress { key: NavKey::Enter, shift }];
    assert(presses.drop_last() =~= Seq::<KeyPress>::empty());
}

/// With nothing selected (as after each edit of the query), the preview shows
/// the first match, and nothing when no wallpaper matches.
pub proof fn lemma_preview_without_selection(f: Seq<usize>)
    ensures
        preview_at(None, f) == (if f.len() > 0 {
            Some(f[0])
        } else {
            None
        }),
{
}

/// What the preview shows is a wallpaper of the list whose name the query
/// matches.
pub proof fn lemma_preview_matches_query(state: PickerState)
    requires
        state.wallpapers@.len() <= usize::MAX,
    ensures
        state.preview_spec() matches Some(i) ==> i < state.wallpapers@.len() && fuzzy_matches(
            state.query@,
            state.wallpapers@[i as int].name@,
        ),
{
    lemma_matching_indices(state.wallpapers@, state.query@);
    if let Some(i) = state.preview_spec() {
        assert(state.filtered_spec()[preview_row(state.selected_idx)] == i);
    }
}

/// The highlighted row of the list is the wallpaper that the preview shows,
/// and when the preview shows one, its row is highlighted.
pub proof fn lemma_highlighted_row_is_preview(sel: Option<usize>, f: Seq<usize>)
    ensures
        forall|k: int| 0 <= k < f.len() && k == preview_row(sel) ==> preview_at(sel, f) == Some(#[trigger] f[k]),
        preview_at(sel, f) is Some ==> 0 <= preview_row(sel) < f.len(),
{
}

/// When the selected row fits in `i32` and the step does not overflow, a
/// move is plain integer arithmetic: below the first row clears the
/// selection, past the last row stays on the last row.
pub proof fn lemma_next_selection_integer_step(sel: Option<usize>, delta: i32, count: usize)
    requires
        count > 0,
        sel matches Some(i) ==> i <= i32::MAX && i32::MIN <= i + delta <= i32::MAX,
    ensures
        next_selection(sel, delta, count) == match sel {
            None => if delta > 0 {
                Some(0usize)
            } else {
                None
            },
            Some(i) => if i + delta < 0 {
                None
            } else if i + delta <= count - 1 {
                Some((i + delta) as usize)
            } else {
                Some((count - 1) as usize)
            },
        },
{
}

/// The preview shows the selected row: with row `r` of the filtered list
/// selected, the preview (and what Enter applies) is the wallpaper of row
/// `r`, and that row is the one highlighted; with nothing selected, it is
/// the first row's.
pub proof fn lemma_preview_is_selected_row(r: usize, f: Seq<usize>)
    ensures
        preview_row(Some(r)) == r,
        preview_row(None) == 0,
        r < f.len() ==> preview_at(Some(r), f) == Some(f[r as int]),
        r >= f.len() ==> preview_at(Some(r), f) is None,
{
}

/// Enter applies the wallpaper of the row that is selected when it is
/// pressed.
pub proof fn lemma_enter_applies_selected_row(
    sel: Option<usize>,
    presses: Seq<KeyPress>,
    count: usize,
    f: Seq<usize>,
    r: usize,
)
    requires
        presses.len() > 0,
        presses.last().key is Enter,
        keys_selection(sel, presses.drop_last(), count) == Some(r),
        r < f.len(),
    ensures
        keys_apply(sel, presses, count, f) == Some(f[r as int]),
{
}

/// Moving down from the search field and pressing Enter applies the first
/// match.
pub proof fn lemma_down_then_enter_applies_first(shift: bool, count: usize, f: Seq<usize>)
    requires
        count > 0,
        f.len() > 0,
    ensures
        keys_apply(
            None,
            seq![KeyPress { key: NavKey::ArrowDown, shift }, KeyPress { key: NavKey::Enter, shift }],
            count,
            f,
        ) == Some(f[0]),
{
    let presses = seq![KeyPress { key: NavKey::ArrowDown, shift }, KeyPress { key: NavKey::Enter, shift }];
    let first = presses.drop_last();
    assert(first =~= seq![KeyPress { key: NavKey::ArrowDown, shift }]);
    assert(first.drop_last() =~= Seq::<KeyPress>::empty());
    assert(keys_selection(None, first.drop_last(), count) is None);
    assert(first.last() == KeyPress { key: NavKey::ArrowDown, shift });
    assert(key_delta(first.last()) == 1i32);
    assert(keys_selection(None, first, count) == Some(0usize));
}

} // verus!
