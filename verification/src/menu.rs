//! The top menu bar: its menus, their entries, and where they stand on
//! the screen.
use vstd::prelude::*;

use crate::text::chars_of;

verus! {

/// The menus of the top bar, in their order on the bar.
#[derive(Clone, Copy, PartialEq, Eq, Debug, Structural)]
pub enum MenuKind {
    File,
    Edit,
    Search,
    Help,
}

/// What a menu entry does.
#[derive(Clone, Copy, PartialEq, Eq, Debug, Structural)]
pub enum MenuAction {
    Save,
    SaveAs,
    Quit,
    Undo,
    Redo,
    Cut,
    Copy,
    Paste,
    Find,
    Replace,
    TogglePreview,
    Keybindings,
    About,
}

/// One entry of a dropdown menu.
#[derive(Clone, Copy)]
pub struct MenuEntry {
    pub label: &'static str,
    pub mnemonic: char,
    pub action: MenuAction,
}

/// A rectangle of the screen, in character cells.
#[derive(Clone, Copy, PartialEq, Eq, Debug, Structural)]
pub struct MenuRect {
    pub x: usize,
    pub y: usize,
    pub width: usize,
    pub height: usize,
}

/// The position of `menu` on the bar.
pub open spec fn spec_menu_index(menu: MenuKind) -> nat {
    match menu {
        MenuKind::File => 0,
        MenuKind::Edit => 1,
        MenuKind::Search => 2,
        MenuKind::Help => 3,
    }
}

/// The menu at position `index` of the bar, counting round.
pub open spec fn spec_menu_by_index(index: nat) -> MenuKind {
    let k = index % 4;
    if k == 0 {
        MenuKind::File
    } else if k == 1 {
        MenuKind::Edit
    } else if k == 2 {
        MenuKind::Search
    } else {
        MenuKind::Help
    }
}

/// The mnemonics and actions of the entries of `menu`, in order.
pub open spec fn spec_menu_entries(menu: MenuKind) -> Seq<(char, MenuAction)> {
    match menu {
        MenuKind::File => seq![('s', MenuAction::Save), ('a', MenuAction::SaveAs), ('q', MenuAction::Quit)],
        MenuKind::Edit => seq![
            ('u', MenuAction::Undo),
            ('r', MenuAction::Redo),
            ('t', MenuAction::Cut),
            ('c', MenuAction::Copy),
            ('p', MenuAction::Paste),
        ],
        MenuKind::Search => seq![('f', MenuAction::Find), ('r', MenuAction::Replace)],
        MenuKind::Help => seq![
            ('k', MenuAction::Keybindings),
            ('p', MenuAction::TogglePreview),
            ('a', MenuAction::About),
        ],
    }
}

/// The width of the widest entry label of `menu`.
pub open spec fn spec_menu_label_width(menu: MenuKind) -> nat {
    match menu {
        MenuKind::File => 24,
        MenuKind::Edit => 18,
        MenuKind::Search => 18,
        MenuKind::Help => 21,
    }
}

/// Column and width of the label of each menu on the bar: the title
/// ` redit v0.1 ` comes first, then the labels ` File `, ` Edit `,
/// ` Search `, ` Help `, one column apart from the title and two from each
/// other.
pub open spec fn spec_menu_bounds() -> Seq<(MenuKind, nat, nat)> {
    seq![(MenuKind::File, 13, 6), (MenuKind::Edit, 21, 6), (MenuKind::Search, 29, 8), (MenuKind::Help, 39, 6)]
}

/// The menu whose mnemonic is `c` (`f`, `e`, `s`, `h`).
pub open spec fn spec_menu_from_mnemonic(c: char) -> Option<MenuKind> {
    if c == 'f' {
        Some(MenuKind::File)
    } else if c == 'e' {
        Some(MenuKind::Edit)
    } else if c == 's' {
        Some(MenuKind::Search)
    } else if c == 'h' {
        Some(MenuKind::Help)
    } else {
        None
    }
}

/// The menu whose mnemonic is `c`.
pub fn menu_from_mnemonic(c: char) -> (res: Option<MenuKind>)
    ensures
        res == spec_menu_from_mnemonic(c),
{
    match c {
        'f' => Some(MenuKind::File),
        'e' => Some(MenuKind::Edit),
        's' => Some(MenuKind::Search),
        'h' => Some(MenuKind::Help),
        _ => None,
    }
}

/// The position of `menu` on the bar.
pub fn menu_index(menu: MenuKind) -> (res: usize)
    ensures
        res == spec_menu_index(menu),
{
    match menu {
        MenuKind::File => 0,
        MenuKind::Edit => 1,
        MenuKind::Search => 2,
        MenuKind::Help => 3,
    }
}

/// The menu at position `index` of the bar, counting round.
pub fn menu_by_index(index: usize) -> (res: MenuKind)
    ensures
        res == spec_menu_by_index(index as nat),
{
    let k = index % 4;
    if k == 0 {
        MenuKind::File
    } else if k == 1 {
        MenuKind::Edit
    } else if k == 2 {
        MenuKind::Search
    } else {
        MenuKind::Help
    }
}

/// The menu left of `menu` on the bar, the last one for the first.
pub fn prev_menu(menu: MenuKind) -> (res: MenuKind)
    ensures
        res == spec_menu_by_index(((spec_menu_index(menu) + 3) % 4) as nat),
{
    let idx = menu_index(menu);
    let prev = if idx == 0 {
        3
    } else {
        idx - 1
    };
    menu_by_index(prev)
}

/// The menu right of `menu` on the bar, the first one for the last.
pub fn next_menu(menu: MenuKind) -> (res: MenuKind)
    ensures
        res == spec_menu_by_index(((spec_menu_index(menu) + 1) % 4) as nat),
{
    let idx = menu_index(menu);
    menu_by_index((idx + 1) % 4)
}

/// The entries of `menu`, in order.
pub fn menu_entries(menu: MenuKind) -> (res: Vec<MenuEntry>)
    ensures
        res@.len() == spec_menu_entries(menu).len(),
        forall|i: int|
            0 <= i < res@.len() ==> (#[trigger] res@[i].mnemonic, res@[i].action) == spec_menu_entries(
                menu,
            )[i] && res@[i].label@ == spec_menu_labels(menu)[i],
{
    match menu {
        MenuKind::File => vec![
            MenuEntry { label: "Save        Ctrl+S", mnemonic: 's', action: MenuAction::Save },
            MenuEntry { label: "Save As...  Ctrl+Shift+S", mnemonic: 'a', action: MenuAction::SaveAs },
            MenuEntry { label: "Quit        Ctrl+Q", mnemonic: 'q', action: MenuAction::Quit },
        ],
        MenuKind::Edit => vec![
            MenuEntry { label: "Undo        Ctrl+Z", mnemonic: 'u', action: MenuAction::Undo },
            MenuEntry { label: "Redo        Ctrl+Y", mnemonic: 'r', action: MenuAction::Redo },
            MenuEntry { label: "Cut         Ctrl+X", mnemonic: 't', action: MenuAction::Cut },
            MenuEntry { label: "Copy        Ctrl+C", mnemonic: 'c', action: MenuAction::Copy },
            MenuEntry { label: "Paste       Ctrl+V", mnemonic: 'p', action: MenuAction::Paste },
        ],
        MenuKind::Search => vec![
            MenuEntry { label: "Find        Ctrl+F", mnemonic: 'f', action: MenuAction::Find },
            MenuEntry { label: "Replace     Ctrl+R", mnemonic: 'r', action: MenuAction::Replace },
        ],
        MenuKind::Help => vec![
            MenuEntry { label: "Keybindings F1", mnemonic: 'k', action: MenuAction::Keybindings },
            MenuEntry {
                label: "Toggle Preview Ctrl+P",
                mnemonic: 'p',
                action: MenuAction::TogglePreview,
            },
            MenuEntry { label: "About redit v0.1", mnemonic: 'a', action: MenuAction::About },
        ],
    }
}

/// The number of entries of `menu`.
pub fn menu_entry_count(menu: MenuKind) -> (res: usize)
    ensures
        res == spec_menu_entries(menu).len(),
{
    menu_entries(menu).len()
}

/// The entry labels of `menu`, in order.
pub open spec fn spec_menu_labels(menu: MenuKind) -> Seq<Seq<char>> {
    match menu {
        MenuKind::File => seq!["Save        Ctrl+S"@, "Save As...  Ctrl+Shift+S"@, "Quit        Ctrl+Q"@],
        MenuKind::Edit => seq![
            "Undo        Ctrl+Z"@,
            "Redo        Ctrl+Y"@,
            "Cut         Ctrl+X"@,
            "Copy        Ctrl+C"@,
            "Paste       Ctrl+V"@,
        ],
        MenuKind::Search => seq!["Find        Ctrl+F"@, "Replace     Ctrl+R"@],
        MenuKind::Help => seq!["Keybindings F1"@, "Toggle Preview Ctrl+P"@, "About redit v0.1"@],
    }
}

/// The length of the longest of `labels` (0 when there is none).
pub open spec fn max_len(labels: Seq<Seq<char>>) -> nat
    decreases labels.len(),
{
    if labels.len() == 0 {
        0
    } else {
        let rest = max_len(labels.drop_last());
        if labels.last().len() > rest {
            labels.last().len()
        } else {
            rest
        }
    }
}

proof fn lemma_label_widths(menu: MenuKind)
    ensures
        max_len(spec_menu_labels(menu)) == spec_menu_label_width(menu),
{
    reveal_strlit("Save        Ctrl+S");
    reveal_strlit("Save As...  Ctrl+Shift+S");
    reveal_strlit("Quit        Ctrl+Q");
    reveal_strlit("Undo        Ctrl+Z");
    reveal_strlit("Redo        Ctrl+Y");
    reveal_strlit("Cut         Ctrl+X");
    reveal_strlit("Copy        Ctrl+C");
    reveal_strlit("Paste       Ctrl+V");
    reveal_strlit("Find        Ctrl+F");
    reveal_strlit("Replace     Ctrl+R");
    reveal_strlit("Keybindings F1");
    reveal_strlit("Toggle Preview Ctrl+P");
    reveal_strlit("About redit v0.1");
    let l = spec_menu_labels(menu);
    reveal_with_fuel(max_len, 6);
    match menu {
        MenuKind::File => {
            assert(l.drop_last() =~= seq![l[0], l[1]]);
            assert(l.drop_last().drop_last() =~= seq![l[0]]);
            assert(l.drop_last().drop_last().drop_last() =~= Seq::<Seq<char>>::empty());
        },
        MenuKind::Edit => {
            assert(l.drop_last() =~= seq![l[0], l[1], l[2], l[3]]);
            assert(l.drop_last().drop_last() =~= seq![l[0], l[1], l[2]]);
            assert(l.drop_last().drop_last().drop_last() =~= seq![l[0], l[1]]);
            assert(l.drop_last().drop_last().drop_last().drop_last() =~= seq![l[0]]);
            assert(l.drop_last().drop_last().drop_last().drop_last().drop_last()
                =~= Seq::<Seq<char>>::empty());
        },
        MenuKind::Search => {
            assert(l.drop_last() =~= seq![l[0]]);
            assert(l.drop_last().drop_last() =~= Seq::<Seq<char>>::empty());
        },
        MenuKind::Help => {
            assert(l.drop_last() =~= seq![l[0], l[1]]);
            assert(l.drop_last().drop_last() =~= seq![l[0]]);
            assert(l.drop_last().drop_last().drop_last() =~= Seq::<Seq<char>>::empty());
        },
    }
}

/// The width of the widest entry label of `menu`.
pub fn menu_label_width(menu: MenuKind) -> (res: usize)
    ensures
        res == spec_menu_label_width(menu),
{
    let entries = menu_entries(menu);
    let ghost labels = spec_menu_labels(menu);
    let mut widest: usize = 0;
    let mut i: usize = 0;
    assert(labels.take(0) =~= Seq::<Seq<char>>::empty());
    assert forall|k: int| 0 <= k < entries@.len() implies (#[trigger] entries@[k]).label@
        == labels[k] by {
        assert(entries@[k].mnemonic == spec_menu_entries(menu)[k].0);
    }
    while i < entries.len()
        invariant
            i <= entries@.len(),
            entries@.len() == labels.len(),
            forall|k: int| 0 <= k < entries@.len() ==> (#[trigger] entries@[k]).label@ == labels[k],
            widest == max_len(labels.take(i as int)),
        decreases entries@.len() - i,
    {
        let w = chars_of(entries[i].label).len();
        assert(labels.take(i + 1).drop_last() =~= labels.take(i as int));
        if w > widest {
            widest = w;
        }
        i += 1;
    }
    proof {
        assert(labels.take(i as int) =~= labels);
        lemma_label_widths(menu);
    }
    widest
}

/// The label of `menu` on the bar.
pub fn menu_title(menu: MenuKind) -> (res: &'static str)
    ensures
        res@ == spec_menu_title(menu),
{
    match menu {
        MenuKind::File => "File",
        MenuKind::Edit => "Edit",
        MenuKind::Search => "Search",
        MenuKind::Help => "Help",
    }
}

/// The label of `menu` on the bar.
pub open spec fn spec_menu_title(menu: MenuKind) -> Seq<char> {
    match menu {
        MenuKind::File => "File"@,
        MenuKind::Edit => "Edit"@,
        MenuKind::Search => "Search"@,
        MenuKind::Help => "Help"@,
    }
}

/// The title at the left end of the bar.
pub fn app_title() -> (res: &'static str)
    ensures
        res@ == " redit v0.1 "@,
{
    " redit v0.1 "
}

/// Column and width of the label of each menu on the bar, left to right.
pub fn menu_item_bounds() -> (res: Vec<(MenuKind, usize, usize)>)
    ensures
        res@.len() == 4,
        forall|i: int|
            0 <= i < 4 ==> (#[trigger] res@[i].0, res@[i].1 as nat, res@[i].2 as nat)
                == spec_menu_bounds()[i],
{
    proof {
        reveal_strlit(" redit v0.1 ");
        reveal_strlit("File");
        reveal_strlit("Edit");
        reveal_strlit("Search");
        reveal_strlit("Help");
    }
    let mut x = chars_of(app_title()).len();
    let mut bounds: Vec<(MenuKind, usize, usize)> = Vec::new();
    let mut index: usize = 0;
    while index < 4
        invariant
            index <= 4,
            bounds@.len() == index,
            x == if index == 0 {
                12
            } else {
                spec_menu_bounds()[index - 1].1 + spec_menu_bounds()[index - 1].2
            },
            forall|i: int|
                0 <= i < index ==> (#[trigger] bounds@[i].0, bounds@[i].1 as nat, bounds@[i].2 as nat)
                    == spec_menu_bounds()[i],
        decreases 4 - index,
    {
        proof {
            reveal_strlit("File");
            reveal_strlit("Edit");
            reveal_strlit("Search");
            reveal_strlit("Help");
        }
        let menu = menu_by_index(index);
        x += if index == 0 {
            1
        } else {
            2
        };
        let width = chars_of(menu_title(menu)).len() + 2;
        bounds.push((menu, x, width));
        x += width;
        index += 1;
    }
    bounds
}

/// The menu whose label on the bar covers `column`.
pub open spec fn spec_menu_at_column(column: int) -> Option<MenuKind> {
    if 13 <= column < 19 {
        Some(MenuKind::File)
    } else if 21 <= column < 27 {
        Some(MenuKind::Edit)
    } else if 29 <= column < 37 {
        Some(MenuKind::Search)
    } else if 39 <= column < 45 {
        Some(MenuKind::Help)
    } else {
        None
    }
}

/// The menu whose label on the bar covers `column`.
pub fn menu_at_column(column: usize) -> (res: Option<MenuKind>)
    ensures
        res == spec_menu_at_column(column as int),
        match res {
            Some(m) => exists|i: int|
                0 <= i < 4 && #[trigger] spec_menu_bounds()[i].0 == m && spec_menu_bounds()[i].1
                    <= column < spec_menu_bounds()[i].1 + spec_menu_bounds()[i].2,
            None => forall|i: int|
                0 <= i < 4 ==> !(spec_menu_bounds()[i].1 <= column < #[trigger] spec_menu_bounds()[i].1
                    + spec_menu_bounds()[i].2),
        },
{
    let bounds = menu_item_bounds();
    let mut i: usize = 0;
    while i < bounds.len()
        invariant
            i <= 4,
            bounds@.len() == 4,
            forall|k: int|
                0 <= k < 4 ==> (#[trigger] bounds@[k].0, bounds@[k].1 as nat, bounds@[k].2 as nat)
                    == spec_menu_bounds()[k],
            forall|k: int|
                0 <= k < i ==> !(spec_menu_bounds()[k].1 <= column < #[trigger] spec_menu_bounds()[k].1
                    + spec_menu_bounds()[k].2),
        decreases 4 - i,
    {
        let (menu, x, width) = bounds[i];
        assert((bounds@[i as int].0, bounds@[i as int].1 as nat, bounds@[i as int].2 as nat)
            == spec_menu_bounds()[i as int]);
        if x <= column && column < x + width {
            return Some(menu);
        }
        i += 1;
    }
    proof {
        let b = spec_menu_bounds();
        assert(!(b[0].1 <= column < b[0].1 + b[0].2));
        assert(!(b[1].1 <= column < b[1].1 + b[1].2));
        assert(!(b[2].1 <= column < b[2].1 + b[2].2));
        assert(!(b[3].1 <= column < b[3].1 + b[3].2));
    }
    None
}

/// Column and width of the label of `menu` on the bar.
pub fn menu_label_bounds(menu: MenuKind) -> (res: Option<(usize, usize)>)
    ensures
        res == Some(
            (
                spec_menu_bounds()[spec_menu_index(menu) as int].1 as usize,
                spec_menu_bounds()[spec_menu_index(menu) as int].2 as usize,
            ),
        ),
{
    let bounds = menu_item_bounds();
    let mut i: usize = 0;
    while i < bounds.len()
        invariant
            i <= 4,
            bounds@.len() == 4,
            forall|k: int|
                0 <= k < 4 ==> (#[trigger] bounds@[k].0, bounds@[k].1 as nat, bounds@[k].2 as nat)
                    == spec_menu_bounds()[k],
            forall|k: int| 0 <= k < i ==> spec_menu_bounds()[k].0 != menu,
        decreases 4 - i,
    {
        let (kind, x, width) = bounds[i];
        assert((bounds@[i as int].0, bounds@[i as int].1 as nat, bounds@[i as int].2 as nat)
            == spec_menu_bounds()[i as int]);
        if kind == menu {
            return Some((x, width));
        }
        i += 1;
    }
    assert(spec_menu_bounds()[spec_menu_index(menu) as int].0 == menu);
    None
}

/// The dropdown rectangle of `menu` on a `cols` by `rows` screen: under its
/// label, as wide as its widest entry plus a border and padding (clipped to
/// the screen), as many rows as entries fit above the two bottom bars, plus
/// the border; `None` when it would not fit.
pub open spec fn spec_dropdown_rect(menu: MenuKind, cols: int, rows: int) -> Option<MenuRect> {
    let x = spec_menu_bounds()[spec_menu_index(menu) as int].1 as int;
    let n = spec_menu_entries(menu).len() as int;
    let width = crate::document::min_int(spec_menu_label_width(menu) + 4int, cols - x);
    let max_height = if rows >= 3 {
        rows - 3
    } else {
        0
    };
    let avail = if max_height >= 2 {
        max_height - 2
    } else {
        0
    };
    let entry_rows = crate::document::min_int(n, avail);
    if n == 0 || x >= cols || width < 4 || entry_rows == 0 {
        None
    } else {
        Some(
            MenuRect {
                x: x as usize,
                y: 1,
                width: width as usize,
                height: (entry_rows + 2) as usize,
            },
        )
    }
}

/// The dropdown rectangle of `menu` on a `cols` by `rows` screen.
pub fn dropdown_rect(menu: MenuKind, cols: usize, rows: usize) -> (res: Option<MenuRect>)
    ensures
        res == spec_dropdown_rect(menu, cols as int, rows as int),
{
    let count = menu_entry_count(menu);
    if count == 0 {
        return None;
    }
    let (x, _) = match menu_label_bounds(menu) {
        Some(b) => b,
        None => return None,
    };
    if x >= cols {
        return None;
    }
    let content_width = menu_label_width(menu);
    let width = if content_width + 4 < cols - x {
        content_width + 4
    } else {
        cols - x
    };
    let max_height = rows.saturating_sub(3);
    let avail = max_height.saturating_sub(2);
    let entry_rows = if count < avail {
        count
    } else {
        avail
    };
    let height = entry_rows + 2;
    if width < 4 || entry_rows == 0 {
        return None;
    }
    Some(MenuRect { x, y: 1, width, height })
}

/// The entry of the open dropdown of `menu` at screen cell (`column`,
/// `row`): the rows inside the border count from 0; `None` on the border,
/// outside the dropdown, or when it does not fit.
pub open spec fn spec_dropdown_item_at(menu: MenuKind, column: int, row: int, cols: int, rows: int) -> Option<
    usize,
> {
    match spec_dropdown_rect(menu, cols, rows) {
        None => None,
        Some(r) => if row <= r.y || row >= r.y + r.height - 1 || column <= r.x || column >= r.x
            + r.width - 1 {
            None
        } else {
            Some((row - r.y - 1) as usize)
        },
    }
}

/// An entry found in a dropdown is one of the menu's entries.
pub proof fn lemma_dropdown_item_bound(menu: MenuKind, column: int, row: int, cols: int, rows: int)
    ensures
        spec_dropdown_item_at(menu, column, row, cols, rows) matches Some(i) ==> i
            < spec_menu_entries(menu).len(),
{
}

/// The entry of the open dropdown of `menu` at screen cell (`column`, `row`).
pub fn dropdown_item_at(menu: MenuKind, column: usize, row: usize, cols: usize, rows: usize) -> (res:
    Option<usize>)
    ensures
        res == spec_dropdown_item_at(menu, column as int, row as int, cols as int, rows as int),
{
    let rect = match dropdown_rect(menu, cols, rows) {
        Some(r) => r,
        None => return None,
    };
    if row <= rect.y || row >= rect.y + rect.height - 1 {
        return None;
    }
    if column <= rect.x || column >= rect.x + rect.width - 1 {
        return None;
    }
    Some(row - rect.y - 1)
}

/// The first index at or after `i` of an entry of `entries` whose mnemonic
/// is `c`.
pub open spec fn first_mnemonic_from(entries: Seq<(char, MenuAction)>, c: char, i: int) -> Option<
    usize,
>
    decreases entries.len() - i,
{
    if i < 0 || i >= entries.len() {
        None
    } else if entries[i].0 == c {
        Some(i as usize)
    } else {
        first_mnemonic_from(entries, c, i + 1)
    }
}

proof fn lemma_first_mnemonic(entries: Seq<(char, MenuAction)>, c: char, i: int, r: Option<usize>)
    requires
        0 <= i <= entries.len() <= 8,
        forall|k: int| 0 <= k < i ==> #[trigger] entries[k].0 != c,
        match r {
            Some(j) => i <= j < entries.len() && entries[j as int].0 == c && forall|k: int|
                0 <= k < j ==> #[trigger] entries[k].0 != c,
            None => forall|k: int| 0 <= k < entries.len() ==> #[trigger] entries[k].0 != c,
        },
    ensures
        first_mnemonic_from(entries, c, i) == r,
    decreases entries.len() - i,
{
    if i < entries.len() {
        if entries[i].0 != c {
            lemma_first_mnemonic(entries, c, i + 1, r);
        }
    }
}

/// A found index is the index of an entry.
pub proof fn lemma_first_mnemonic_bound(entries: Seq<(char, MenuAction)>, c: char, i: int)
    requires
        entries.len() <= usize::MAX,
    ensures
        first_mnemonic_from(entries, c, i) matches Some(j) ==> i <= j < entries.len(),
    decreases entries.len() - i,
{
    if 0 <= i < entries.len() && entries[i].0 != c {
        lemma_first_mnemonic_bound(entries, c, i + 1);
    }
}

/// The index of the entry of `menu` whose mnemonic is `mnemonic`.
pub fn menu_item_index_by_mnemonic(menu: MenuKind, mnemonic: char) -> (res: Option<usize>)
    ensures
        res == first_mnemonic_from(spec_menu_entries(menu), mnemonic, 0),
        match res {
            Some(i) => i < spec_menu_entries(menu).len() && spec_menu_entries(menu)[i as int].0
                == mnemonic && forall|k: int|
                0 <= k < i ==> #[trigger] spec_menu_entries(menu)[k].0 != mnemonic,
            None => forall|k: int|
                0 <= k < spec_menu_entries(menu).len() ==> #[trigger] spec_menu_entries(menu)[k].0
                    != mnemonic,
        },
{
    let entries = menu_entries(menu);
    let mut i: usize = 0;
    while i < entries.len()
        invariant
            i <= entries@.len(),
            entries@.len() == spec_menu_entries(menu).len(),
            forall|k: int|
                0 <= k < entries@.len() ==> (#[trigger] entries@[k].mnemonic, entries@[k].action)
                    == spec_menu_entries(menu)[k] && entries@[k].label@ == spec_menu_labels(menu)[k],
            forall|k: int| 0 <= k < i ==> #[trigger] spec_menu_entries(menu)[k].0 != mnemonic,
        decreases entries@.len() - i,
    {
        assert((entries@[i as int].mnemonic, entries@[i as int].action) == spec_menu_entries(
            menu,
        )[i as int]);
        if entries[i].mnemonic == mnemonic {
            proof {
                lemma_first_mnemonic(spec_menu_entries(menu), mnemonic, 0, Some(i));
            }
            return Some(i);
        }
        i += 1;
    }
    proof {
        lemma_first_mnemonic(spec_menu_entries(menu), mnemonic, 0, None);
    }
    None
}

/// Moving to the next menu undoes moving to the previous one, and four
/// moves to the next menu come back to the start.
pub proof fn law_menu_cycle(m: MenuKind)
    ensures
        spec_menu_by_index(
            ((spec_menu_index(spec_menu_by_index(((spec_menu_index(m) + 3) % 4) as nat)) + 1) % 4) as nat,
        ) == m,
        spec_menu_by_index(((spec_menu_index(m) + 4) % 4) as nat) == m,
{
}

} // verus!
