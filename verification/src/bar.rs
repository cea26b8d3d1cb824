//! The status bar's readings and the labels its modules carry.
//!
//! Drawing the bar is the program's: what is here is what every era's
//! bar says, whatever it looks like -- the text of each module and
//! which of the era's dresses it wears.

use vstd::prelude::*;
use vstd::string::StringExecFns;
use crate::text::{
    clip, clip_spec, padded_spec, push_char, push_padded, push_signed_decimal,
    signed_decimal_spec,
};

verus! {

/// One workspace as the compositor reports it.
#[derive(Debug, Clone, PartialEq, Eq)]
pub struct Workspace {
    pub id: i32,
    pub active: bool,
}

/// The default audio sink, as the sound server reports it.
#[derive(Debug, Clone, Copy, PartialEq, Eq, Default)]
pub struct Audio {
    /// Whole percent of the server's notion of normal volume. May
    /// exceed 100: PulseAudio allows amplification, and a bar that
    /// clamps it silently is lying about the state of the machine.
    pub volume: u16,
    pub muted: bool,
}

/// How the machine reaches the outside world.
///
/// `Unknown` and `Offline` are deliberately not the same variant: a bar
/// that announces "offline" because its first probe has not landed yet
/// is worse than one that shows nothing for a second, so `Unknown`
/// draws no module at all.
#[derive(Debug, Clone, PartialEq, Eq, Default)]
pub enum Network {
    #[default]
    Unknown,
    /// Nothing holds a default route.
    Offline,
    Wired { interface: String },
    /// `ssid` is empty when the name was not cheaply available; the
    /// interface stands in for it rather than the module vanishing.
    Wireless { interface: String, ssid: String },
}

/// What a pointer did to a tray cell, named for the StatusNotifierItem
/// methods rather than for the buttons.
#[derive(Debug, Clone, Copy, PartialEq, Eq)]
pub enum TrayAction {
    /// `Activate`: left button.
    Activate,
    /// `SecondaryActivate`: middle button.
    Secondary,
    /// `ContextMenu`: right button.
    Context,
    /// `Scroll` along the vertical axis, in whole wheel detents, never
    /// zero; the sign is the host's scroll event's.
    Scroll(i32),
}

/// What kind of row a tray menu row is.
#[derive(Debug, Clone, Copy, PartialEq, Eq, Structural)]
pub enum MenuKind {
    /// A plain command.
    Command,
    /// A rule between groups.
    Separator,
    /// A checkmark or a radio, and whether it is set.
    Toggle(bool),
    /// A row whose children open beside it.
    Submenu,
}

/// One row of a tray item's context menu, as the host hands it over:
/// already a row, not the protocol's bag of properties.
#[derive(Debug, PartialEq, Eq)]
pub struct MenuEntry {
    /// Sent back to the host when the row is clicked; never drawn.
    pub id: i32,
    pub label: String,
    /// A disabled row is drawn quiet and does not answer, rather than
    /// hidden.
    pub enabled: bool,
    pub kind: MenuKind,
    /// Whether the row carries an icon of its own. The pixels are the
    /// host's, decoded at the size the program asks for; what the
    /// layout reads is only whether there are any.
    pub has_icon: bool,
    /// The rows of this row's submenu; empty for every other kind.
    pub children: Vec<MenuEntry>,
}

/// An item's context menu: a tree of rows. Which branch is open is not
/// here but in a [`MenuPath`] beside it.
#[derive(Debug, Default, PartialEq, Eq)]
pub struct TrayMenu {
    pub entries: Vec<MenuEntry>,
}

/// Which submenu is open, as indices into successive
/// [`MenuEntry::children`] vectors. Empty is the root panel alone.
pub type MenuPath = Vec<usize>;

/// Characters of a menu label drawn before it is clipped.
pub const MENU_LABEL_CHARS: usize = 40;

/// Whether any row of a panel carries an icon: one that does reserves
/// the icon column for the whole panel.
pub open spec fn any_icon(entries: Seq<MenuEntry>) -> bool {
    exists|i: int| 0 <= i < entries.len() && #[trigger] entries[i].has_icon
}

/// Whether any row of a panel opens a submenu: one that does reserves
/// the marker column for the whole panel.
pub open spec fn any_submenu(entries: Seq<MenuEntry>) -> bool {
    exists|i: int| 0 <= i < entries.len() && #[trigger] entries[i].kind == MenuKind::Submenu
}

/// How many characters of a row's label are drawn.
pub open spec fn shown_chars(entry: MenuEntry) -> nat {
    if entry.label@.len() < MENU_LABEL_CHARS {
        entry.label@.len()
    } else {
        MENU_LABEL_CHARS as nat
    }
}

/// The most characters any row of a panel draws; zero for no rows.
pub open spec fn widest_spec(entries: Seq<MenuEntry>) -> nat
    decreases entries.len(),
{
    if entries.len() == 0 {
        0
    } else {
        let rest = widest_spec(entries.drop_last());
        let last = shown_chars(entries.last());
        if rest < last {
            last
        } else {
            rest
        }
    }
}

/// A panel is as wide as its widest label, each label counted up to
/// forty characters: every row, whatever its kind and whether or not
/// it is enabled or has an icon, fits within the width, and the width
/// is that of some row -- or nothing, for a panel with no rows.
pub proof fn law_widest_is_the_widest_row(entries: Seq<MenuEntry>)
    ensures
        forall|i: int|
            0 <= i < entries.len() ==> (if entries[i].label@.len() < 40 {
                entries[i].label@.len()
            } else {
                40
            }) <= widest_spec(entries),
        entries.len() == 0 ==> widest_spec(entries) == 0,
        entries.len() > 0 ==> exists|j: int|
            0 <= j < entries.len() && widest_spec(entries) == (if entries[j].label@.len() < 40 {
                entries[j].label@.len()
            } else {
                40
            }),
    decreases entries.len(),
{
    if entries.len() > 0 {
        let init = entries.drop_last();
        law_widest_is_the_widest_row(init);
        let k = entries.len() - 1;
        assert forall|i: int|
            0 <= i < entries.len() implies (if entries[i].label@.len() < 40 {
                entries[i].label@.len()
            } else {
                40
            }) <= widest_spec(entries) by {
            if i < k {
                assert(entries[i] == init[i]);
            }
        }
        if init.len() == 0 || widest_spec(init) < shown_chars(entries.last()) {
            assert(widest_spec(entries) == shown_chars(entries[k]));
        } else {
            let j = choose|j: int|
                0 <= j < init.len() && widest_spec(init) == (if init[j].label@.len() < 40 {
                    init[j].label@.len()
                } else {
                    40
                });
            assert(entries[j] == init[j]);
        }
    }
}

/// One row with an icon, anywhere in a panel, reserves the icon column
/// for all of it; a panel of rows without icons reserves none. The same
/// holds of submenu rows and the marker column.
pub proof fn law_one_row_claims_the_column(a: Seq<MenuEntry>, b: Seq<MenuEntry>, e: MenuEntry)
    ensures
        any_icon(a + b) == (any_icon(a) || any_icon(b)),
        any_icon(seq![e]) == e.has_icon,
        !any_icon(Seq::<MenuEntry>::empty()),
        any_submenu(a + b) == (any_submenu(a) || any_submenu(b)),
        any_submenu(seq![e]) == (e.kind == MenuKind::Submenu),
        !any_submenu(Seq::<MenuEntry>::empty()),
{
    let ab = a + b;
    if any_icon(ab) {
        let i = choose|i: int| 0 <= i < ab.len() && #[trigger] ab[i].has_icon;
        if i < a.len() {
            assert(ab[i] == a[i]);
        } else {
            assert(ab[i] == b[i - a.len()]);
        }
    }
    if any_icon(a) {
        let i = choose|i: int| 0 <= i < a.len() && #[trigger] a[i].has_icon;
        assert(ab[i] == a[i]);
    }
    if any_icon(b) {
        let i = choose|i: int| 0 <= i < b.len() && #[trigger] b[i].has_icon;
        assert(ab[i + a.len()] == b[i]);
    }
    if any_submenu(ab) {
        let i = choose|i: int| 0 <= i < ab.len() && #[trigger] ab[i].kind == MenuKind::Submenu;
        if i < a.len() {
            assert(ab[i] == a[i]);
        } else {
            assert(ab[i] == b[i - a.len()]);
        }
    }
    if any_submenu(a) {
        let i = choose|i: int| 0 <= i < a.len() && #[trigger] a[i].kind == MenuKind::Submenu;
        assert(ab[i] == a[i]);
    }
    if any_submenu(b) {
        let i = choose|i: int| 0 <= i < b.len() && #[trigger] b[i].kind == MenuKind::Submenu;
        assert(ab[i + a.len()] == b[i]);
    }
    assert(seq![e][0] == e);
}

/// Whether a panel reserves the icon column.
pub fn has_icons(entries: &[MenuEntry]) -> (r: bool)
    ensures
        r == any_icon(entries@),
{
    let mut i: usize = 0;
    while i < entries.len()
        invariant
            i <= entries@.len(),
            forall|j: int| 0 <= j < i ==> !(#[trigger] entries@[j].has_icon),
        decreases entries@.len() - i,
    {
        if entries[i].has_icon {
            return true;
        }
        i = i + 1;
    }
    false
}

/// Whether a panel reserves the submenu marker's column.
pub fn has_submenus(entries: &[MenuEntry]) -> (r: bool)
    ensures
        r == any_submenu(entries@),
{
    let mut i: usize = 0;
    while i < entries.len()
        invariant
            i <= entries@.len(),
            forall|j: int| 0 <= j < i ==> (#[trigger] entries@[j].kind) != MenuKind::Submenu,
        decreases entries@.len() - i,
    {
        if let MenuKind::Submenu = entries[i].kind {
            return true;
        }
        i = i + 1;
    }
    false
}

/// The widest label of a panel, in drawn characters: what its width is
/// measured from.
pub fn widest_label(entries: &[MenuEntry]) -> (r: usize)
    ensures
        r == widest_spec(entries@),
{
    let mut widest: usize = 0;
    let mut i: usize = 0;
    while i < entries.len()
        invariant
            i <= entries@.len(),
            widest == widest_spec(entries@.take(i as int)),
        decreases entries@.len() - i,
    {
        assert(entries@.take(i + 1).drop_last() =~= entries@.take(i as int));
        let n = entries[i].label.as_str().unicode_len();
        let shown = if n < MENU_LABEL_CHARS {
            n
        } else {
            MENU_LABEL_CHARS
        };
        if widest < shown {
            widest = shown;
        }
        i = i + 1;
    }
    assert(entries@.take(entries@.len() as int) =~= entries@);
    widest
}

/// How a row is marked: the parent of the open submenu wears the era's
/// mark for the current row, a set toggle its selection, a disabled row
/// the quiet ink, and any other row none of these.
#[derive(Debug, Clone, Copy, PartialEq, Eq, Structural)]
pub enum RowLook {
    Open,
    Chosen,
    Quiet,
    Plain,
}

/// The mark of a row, given whether it holds the next panel open. Being
/// open outranks being set, and either outranks being disabled.
pub fn row_look(entry: &MenuEntry, open: bool) -> (r: RowLook)
    ensures
        r == if open {
            RowLook::Open
        } else if entry.kind == MenuKind::Toggle(true) {
            RowLook::Chosen
        } else if !entry.enabled {
            RowLook::Quiet
        } else {
            RowLook::Plain
        },
{
    if open {
        RowLook::Open
    } else if let MenuKind::Toggle(true) = entry.kind {
        RowLook::Chosen
    } else if !entry.enabled {
        RowLook::Quiet
    } else {
        RowLook::Plain
    }
}

/// What clicking a row asks of the host: the dbusmenu id of a command,
/// or the path of a submenu to open.
#[derive(Debug, Clone, PartialEq, Eq)]
pub enum RowAction {
    Entry(i32),
    Submenu(MenuPath),
}

/// A row's action as plain values.
pub open spec fn row_action_view(a: RowAction) -> (Option<i32>, Option<Seq<usize>>) {
    match a {
        RowAction::Entry(id) => (Some(id), None),
        RowAction::Submenu(path) => (None, Some(path@)),
    }
}

/// What clicking the row at `index` of the panel that `prefix` opened
/// does. A separator is not a row one can click, and a disabled row
/// does nothing: the application has just said it would not. A submenu
/// row answers even while it has no rows yet, since the host asks the
/// application for them when it is clicked; any other row sends its id.
pub fn row_action(entry: &MenuEntry, prefix: &[usize], index: usize) -> (r: Option<RowAction>)
    ensures
        entry.kind == MenuKind::Separator || !entry.enabled ==> r is None,
        entry.kind != MenuKind::Separator && entry.enabled ==> (r matches Some(a) && row_action_view(a) == if entry.kind == MenuKind::Submenu {
            (None::<i32>, Some(prefix@.push(index)))
        } else {
            (Some(entry.id), None::<Seq<usize>>)
        }),
{
    if let MenuKind::Separator = entry.kind {
        return None;
    }
    if !entry.enabled {
        return None;
    }
    match entry.kind {
        MenuKind::Submenu => {
            let mut path: Vec<usize> = Vec::new();
            let mut i: usize = 0;
            while i < prefix.len()
                invariant
                    i <= prefix@.len(),
                    path@ == prefix@.take(i as int),
                decreases prefix@.len() - i,
            {
                path.push(prefix[i]);
                assert(prefix@.take(i + 1) =~= prefix@.take(i as int).push(prefix@[i as int]));
                i = i + 1;
            }
            assert(prefix@.take(prefix@.len() as int) =~= prefix@);
            path.push(index);
            Some(RowAction::Submenu(path))
        },
        _ => Some(RowAction::Entry(entry.id)),
    }
}

/// One panel of the open chain: its rows, and which of them holds the
/// next panel open.
pub struct Level<'a> {
    pub entries: &'a [MenuEntry],
    pub open: Option<usize>,
}

/// The row a path opens from a panel: its first index, where that names
/// a row of the panel with rows of its own.
pub open spec fn opens(entries: Seq<MenuEntry>, open: Seq<usize>) -> Option<usize> {
    if open.len() > 0 && open[0] < entries.len() && entries[open[0] as int].children@.len() > 0 {
        Some(open[0])
    } else {
        None
    }
}

/// The chain of panels a path opens, as each panel's rows and its open
/// row. The walk stops at the first index that names no row, or a row
/// with no submenu, or when the path runs out.
pub open spec fn chain(entries: Seq<MenuEntry>, open: Seq<usize>) -> Seq<(Seq<MenuEntry>, Option<usize>)>
    decreases open.len(),
{
    if open.len() > 0 && open[0] < entries.len() && entries[open[0] as int].children@.len() > 0 {
        seq![(entries, Some(open[0]))] + chain(entries[open[0] as int].children@, open.drop_first())
    } else {
        seq![(entries, None)]
    }
}

/// A level as its rows and its open row.
pub open spec fn level_view(l: Level) -> (Seq<MenuEntry>, Option<usize>) {
    (l.entries@, l.open)
}

/// Every panel but the last holds open the row its index names, and
/// that row's submenu is the next panel.
pub open spec fn chain_links(c: Seq<(Seq<MenuEntry>, Option<usize>)>, open: Seq<usize>) -> bool {
    forall|k: int|
        0 <= k < c.len() - 1 ==> {
            &&& #[trigger] c[k].1 == Some(open[k])
            &&& open[k] < c[k].0.len()
            &&& c[k].0[open[k] as int].children@.len() > 0
            &&& c[k + 1].0 == c[k].0[open[k] as int].children@
        }
}

/// A path opens a panel for each index it follows and never one the
/// tree does not have: the chain starts at the root panel, is at most
/// one longer than the path, links each panel to the submenu of the row
/// the path names in it, and ends on a panel that holds nothing open --
/// because the path ran out there, or named no row with a submenu.
pub proof fn law_chain_stops_where_the_tree_does(entries: Seq<MenuEntry>, open: Seq<usize>)
    ensures
        ({
            let c = chain(entries, open);
            &&& 1 <= c.len() <= open.len() + 1
            &&& c[0].0 == entries
            &&& c.last().1 is None
            &&& chain_links(c, open)
            &&& c.len() <= open.len() ==> !(open[c.len() - 1] < c.last().0.len()
                && c.last().0[open[c.len() - 1] as int].children@.len() > 0)
        }),
    decreases open.len(),
{
    let c = chain(entries, open);
    if open.len() > 0 && open[0] < entries.len() && entries[open[0] as int].children@.len() > 0 {
        let children = entries[open[0] as int].children@;
        let tail = open.drop_first();
        let d = chain(children, tail);
        law_chain_stops_where_the_tree_does(children, tail);
        assert(c == seq![(entries, Some(open[0]))] + d);
        assert forall|k: int| 0 <= k < c.len() - 1 implies {
            &&& #[trigger] c[k].1 == Some(open[k])
            &&& open[k] < c[k].0.len()
            &&& c[k].0[open[k] as int].children@.len() > 0
            &&& c[k + 1].0 == c[k].0[open[k] as int].children@
        } by {
            if k > 0 {
                assert(c[k] == d[k - 1]);
                assert(c[k + 1] == d[k]);
                assert(open[k] == tail[k - 1]);
                assert(d[k - 1].1 == Some(tail[k - 1]));
            }
        }
        assert(c.last() == d.last());
        if c.len() <= open.len() {
            assert(open[c.len() - 1] == tail[d.len() - 1]);
        }
    }
}

/// Walk `open` as far as it actually goes.
pub fn levels<'a>(menu: &'a TrayMenu, open: &[usize]) -> (r: Vec<Level<'a>>)
    ensures
        r@.map_values(|l: Level<'a>| level_view(l)) == chain(menu.entries@, open@),
{
    let mut out: Vec<Level<'a>> = Vec::new();
    let mut entries: &'a [MenuEntry] = menu.entries.as_slice();
    let mut depth: usize = 0;
    assert(open@.skip(0) =~= open@);
    loop
        invariant
            depth <= open@.len(),
            out@.map_values(|l: Level<'a>| level_view(l)) + chain(entries@, open@.skip(depth as int))
                == chain(menu.entries@, open@),
        decreases open@.len() - depth,
    {
        let ghost before = out@.map_values(|l: Level<'a>| level_view(l));
        let ghost here = entries@;
        let ghost rest = open@.skip(depth as int);
        let next = if depth < open.len() && open[depth] < entries.len()
            && entries[open[depth]].children.len() > 0 {
            Some(open[depth])
        } else {
            None
        };
        out.push(Level { entries, open: next });
        assert(out@.map_values(|l: Level<'a>| level_view(l)) =~= before + seq![(here, next)]);
        match next {
            None => {
                assert(chain(here, rest) == seq![(here, None::<usize>)]);
                return out;
            },
            Some(index) => {
                assert(rest[0] == index);
                assert(rest.drop_first() =~= open@.skip(depth + 1));
                let ghost children = here[index as int].children@;
                assert(chain(here, rest) == seq![(here, Some(index))] + chain(children, rest.drop_first()));
                entries = entries[index].children.as_slice();
                depth = depth + 1;
                assert(entries@ == children);
                assert(before + seq![(here, next)] + chain(children, rest.drop_first())
                    =~= before + chain(here, rest));
            },
        }
    }
}

/// Which of the era's dresses a module wears.
#[derive(Debug, Clone, Copy, PartialEq, Eq, Structural)]
pub enum Wear {
    Idle,
    Selected,
    /// The reading is a warning: the sink is muted, there is no route
    /// out, or an item is asking to be looked at.
    Alert,
}

/// A module's text and dress.
pub type Label = (String, Wear);

/// The text of a label, and its dress.
pub open spec fn label_view(l: Label) -> (Seq<char>, Wear) {
    (l.0@, l.1)
}

/// The label an era puts on a module in `wear`: an era that says alarm
/// in words, rather than in an ink, adds its suffix to an alert.
pub fn worn_label(label: String, wear: Wear, alert_suffix: Option<&str>) -> (r: String)
    ensures
        r@ == match (wear, alert_suffix) {
            (Wear::Alert, Some(suffix)) => label@ + suffix@,
            _ => label@,
        },
{
    match (wear, alert_suffix) {
        (Wear::Alert, Some(suffix)) => {
            let mut out = label;
            out.append(suffix);
            out
        },
        _ => label,
    }
}

/// A workspace's number, selected when it is the active one.
pub fn workspace_label(ws: &Workspace) -> (r: Label)
    ensures
        label_view(r) == (
            signed_decimal_spec(ws.id as int),
            if ws.active { Wear::Selected } else { Wear::Idle },
        ),
{
    let mut out = String::new();
    push_signed_decimal(&mut out, ws.id);
    assert(out@ =~= signed_decimal_spec(ws.id as int));
    (out, if ws.active { Wear::Selected } else { Wear::Idle })
}

/// Volume and mute in one module: `VOL` or `MUT`, then the volume in
/// three places, capped at 999, then `%`. Muted is an alert.
pub fn audio_label(audio: &Audio) -> (r: Label)
    ensures
        label_view(r) == (
            (if audio.muted { "MUT "@ } else { "VOL "@ })
                + padded_spec(if audio.volume > 999 { 999 } else { audio.volume as nat }, 3)
                + seq!['%'],
            if audio.muted { Wear::Alert } else { Wear::Idle },
        ),
{
    let volume = if audio.volume > 999 {
        999
    } else {
        audio.volume
    };
    let mut out = if audio.muted {
        String::from_str("MUT ")
    } else {
        String::from_str("VOL ")
    };
    push_padded(&mut out, volume as u64, 3);
    push_char(&mut out, '%');
    (out, if audio.muted { Wear::Alert } else { Wear::Idle })
}

/// A usage figure: the name, the whole percent in two places, then `%`.
pub fn usage_label(name: &str, percent: u8) -> (r: Label)
    ensures
        label_view(r) == (name@ + seq![' '] + padded_spec(percent as nat, 2) + seq!['%'], Wear::Idle),
{
    let mut out = String::from_str(name);
    push_char(&mut out, ' ');
    push_padded(&mut out, percent as u64, 2);
    push_char(&mut out, '%');
    (out, Wear::Idle)
}

/// The route out, or nothing at all while it is still unknown. An
/// interface name is cut to 12 characters and a network name to 16; a
/// wireless link with no name shows its interface.
pub fn network_label(network: &Network) -> (r: Option<Label>)
    ensures
        match network {
            Network::Unknown => r is None,
            Network::Offline => r matches Some(l) && label_view(l) == ("NET --"@, Wear::Alert),
            Network::Wired { interface } => r matches Some(l) && label_view(l) == (
                "NET "@ + clip_spec(interface@, 12),
                Wear::Idle,
            ),
            Network::Wireless { interface, ssid } => r matches Some(l) && label_view(l) == (
                "WIFI "@ + clip_spec(if ssid@.len() == 0 { interface@ } else { ssid@ }, 16),
                Wear::Idle,
            ),
        },
{
    match network {
        Network::Unknown => None,
        Network::Offline => Some((String::from_str("NET --"), Wear::Alert)),
        Network::Wired { interface } => {
            let mut out = String::from_str("NET ");
            let name = clip(interface.as_str(), 12);
            out.append(name.as_str());
            Some((out, Wear::Idle))
        },
        Network::Wireless { interface, ssid } => {
            let name = if ssid.as_str().is_empty() {
                interface
            } else {
                ssid
            };
            let mut out = String::from_str("WIFI ");
            let shown = clip(name.as_str(), 16);
            out.append(shown.as_str());
            Some((out, Wear::Idle))
        },
    }
}

/// A tray item drawn as its name: cut to six characters, and an alert
/// when the item is asking to be looked at.
pub fn tray_label(name: &str, attention: bool) -> (r: Label)
    ensures
        label_view(r) == (clip_spec(name@, 6), if attention { Wear::Alert } else { Wear::Idle }),
{
    (clip(name, 6), if attention { Wear::Alert } else { Wear::Idle })
}

/// The labels the bar's right-hand run carries after the tray, in
/// order: the route out when it is known, the sound when a server
/// answered, processor and memory use, the date, and the clock, which
/// is the one module worn selected.
pub open spec fn status_spec(
    network: Network,
    audio: Option<Audio>,
    cpu: u8,
    memory: u8,
    date: Seq<char>,
    clock: Seq<char>,
) -> Seq<(Seq<char>, Wear)> {
    let net: Seq<(Seq<char>, Wear)> = match network {
        Network::Unknown => seq![],
        Network::Offline => seq![("NET --"@, Wear::Alert)],
        Network::Wired { interface } => seq![("NET "@ + clip_spec(interface@, 12), Wear::Idle)],
        Network::Wireless { interface, ssid } => seq![
            ("WIFI "@ + clip_spec(if ssid@.len() == 0 { interface@ } else { ssid@ }, 16), Wear::Idle),
        ],
    };
    let sound: Seq<(Seq<char>, Wear)> = match audio {
        None => seq![],
        Some(a) => seq![(
            (if a.muted { "MUT "@ } else { "VOL "@ }) + padded_spec(
                if a.volume > 999 { 999 } else { a.volume as nat },
                3,
            ) + seq!['%'],
            if a.muted { Wear::Alert } else { Wear::Idle },
        )],
    };
    net + sound + seq![
        ("CPU "@ + padded_spec(cpu as nat, 2) + seq!['%'], Wear::Idle),
        ("MEM "@ + padded_spec(memory as nat, 2) + seq!['%'], Wear::Idle),
        (date, Wear::Idle),
        (clock, Wear::Selected),
    ]
}

/// The bar's right-hand modules after the tray, in the order they are
/// drawn. The network and sound modules are absent, not blank, when
/// their subsystem has nothing to say.
pub fn status_labels(
    network: &Network,
    audio: Option<Audio>,
    cpu: u8,
    memory: u8,
    date: &str,
    clock: &str,
) -> (r: Vec<Label>)
    ensures
        r@.map_values(|l: Label| label_view(l)) == status_spec(*network, audio, cpu, memory, date@, clock@),
{
    let mut out: Vec<Label> = Vec::new();
    if let Some(l) = network_label(network) {
        out.push(l);
    }
    if let Some(a) = audio {
        out.push(audio_label(&a));
    }
    out.push(usage_label("CPU", cpu));
    out.push(usage_label("MEM", memory));
    out.push((String::from_str(date), Wear::Idle));
    out.push((String::from_str(clock), Wear::Selected));
    proof {
        reveal_strlit("CPU");
        reveal_strlit("MEM");
        reveal_strlit("CPU ");
        reveal_strlit("MEM ");
        assert("CPU"@ + seq![' '] =~= "CPU "@);
        assert("MEM"@ + seq![' '] =~= "MEM "@);
        assert(out@.map_values(|l: Label| label_view(l)) =~= status_spec(
            *network,
            audio,
            cpu,
            memory,
            date@,
            clock@,
        ));
    }
    out
}

/// The right-hand run always ends with processor use, memory use, the
/// date and the clock, in that order, the clock alone worn selected;
/// before them stand the route out only when it is known, and the sound
/// only when a server answered.
pub proof fn law_the_run_ends_with_the_clock(
    network: Network,
    audio: Option<Audio>,
    cpu: u8,
    memory: u8,
    date: Seq<char>,
    clock: Seq<char>,
)
    ensures
        ({
            let r = status_spec(network, audio, cpu, memory, date, clock);
            let head = (if network is Unknown { 0int } else { 1int }) + (if audio is Some {
                1int
            } else {
                0int
            });
            &&& r.len() == head + 4
            &&& r[r.len() - 1] == (clock, Wear::Selected)
            &&& r[r.len() - 2] == (date, Wear::Idle)
            &&& r[r.len() - 3].1 == Wear::Idle && r[r.len() - 3].0.take(4) == "MEM "@
            &&& r[r.len() - 4].1 == Wear::Idle && r[r.len() - 4].0.take(4) == "CPU "@
            &&& forall|i: int| 0 <= i < r.len() - 1 ==> #[trigger] r[i].1 != Wear::Selected
            &&& (network is Offline ==> r[0] == ("NET --"@, Wear::Alert))
            &&& (audio matches Some(a) ==> r[head - 1].1 == (if a.muted {
                Wear::Alert
            } else {
                Wear::Idle
            }))
        }),
{
    let r = status_spec(network, audio, cpu, memory, date, clock);
    let c = "CPU "@ + padded_spec(cpu as nat, 2) + seq!['%'];
    let m = "MEM "@ + padded_spec(memory as nat, 2) + seq!['%'];
    reveal_strlit("CPU ");
    reveal_strlit("MEM ");
    assert(c.take(4) =~= "CPU "@);
    assert(m.take(4) =~= "MEM "@);
}

} // verus!

