//! Application state, phase management and keyboard dispatch: the
//! decisions of the interactive views, kept apart from the terminal and
//! the background workers that carry them out.

use vstd::prelude::*;

use crate::graph::{clamp_depth, GraphView, DEFAULT_DEPTH};
use crate::index::Index;
use crate::options::{lowercase, matching_indices, nixos_names, nixos_descs, hm_names, hm_descs, filter_nixos, filter_hm, to_lower, OptionsIndex};
use crate::text::{chars_of, push_char, string_from_range};
use crate::ui::tree::{dep_rows, dep_rows_spec, rev_rows, rev_rows_spec};

verus! {

/// The tabs of the main view.
#[derive(Debug, Clone, Copy, PartialEq, Eq, Structural)]
pub enum Tab {
    Overview,
    Deps,
    RevDeps,
    Graph,
    NixosOptions,
    HmOptions,
}

/// The position of a tab in the tab bar.
pub open spec fn tab_pos(t: Tab) -> nat {
    match t {
        Tab::Overview => 0,
        Tab::Deps => 1,
        Tab::RevDeps => 2,
        Tab::Graph => 3,
        Tab::NixosOptions => 4,
        Tab::HmOptions => 5,
    }
}

/// The tab at position `i` of the tab bar (`i < 6`).
pub open spec fn tab_at(i: nat) -> Tab {
    if i == 0 { Tab::Overview }
    else if i == 1 { Tab::Deps }
    else if i == 2 { Tab::RevDeps }
    else if i == 3 { Tab::Graph }
    else if i == 4 { Tab::NixosOptions }
    else { Tab::HmOptions }
}

impl Tab {
    /// All tabs in tab-bar order.
    pub fn all() -> (r: [Tab; 6])
        ensures
            forall|i: int| 0 <= i < 6 ==> #[trigger] r[i] == tab_at(i as nat),
    {
        [Tab::Overview, Tab::Deps, Tab::RevDeps, Tab::Graph, Tab::NixosOptions, Tab::HmOptions]
    }

    /// The tab's title.
    pub open spec fn label_spec(self) -> Seq<char> {
        match self {
            Tab::Overview => "Overview"@,
            Tab::Deps => "Dependencies"@,
            Tab::RevDeps => "Reverse deps"@,
            Tab::Graph => "Graph"@,
            Tab::NixosOptions => "NixOS opts"@,
            Tab::HmOptions => "HM opts"@,
        }
    }

    /// The digit key that selects the tab.
    pub open spec fn key_spec(self) -> char {
        match self {
            Tab::Overview => '1',
            Tab::Deps => '2',
            Tab::RevDeps => '3',
            Tab::Graph => '4',
            Tab::NixosOptions => '5',
            Tab::HmOptions => '6',
        }
    }

    /// The tab's title.
    pub fn label(self) -> (s: &'static str)
        ensures
            s@ == self.label_spec(),
    {
        match self {
            Tab::Overview => "Overview",
            Tab::Deps => "Dependencies",
            Tab::RevDeps => "Reverse deps",
            Tab::Graph => "Graph",
            Tab::NixosOptions => "NixOS opts",
            Tab::HmOptions => "HM opts",
        }
    }

    /// The digit key that selects the tab.
    pub fn key(self) -> (c: char)
        ensures
            c == self.key_spec(),
    {
        match self {
            Tab::Overview => '1',
            Tab::Deps => '2',
            Tab::RevDeps => '3',
            Tab::Graph => '4',
            Tab::NixosOptions => '5',
            Tab::HmOptions => '6',
        }
    }

    fn pos(self) -> (i: usize)
        ensures
            i == tab_pos(self),
    {
        match self {
            Tab::Overview => 0,
            Tab::Deps => 1,
            Tab::RevDeps => 2,
            Tab::Graph => 3,
            Tab::NixosOptions => 4,
            Tab::HmOptions => 5,
        }
    }

    fn at(i: usize) -> (t: Tab)
        requires
            i < 6,
        ensures
            t == tab_at(i as nat),
    {
        if i == 0 { Tab::Overview }
        else if i == 1 { Tab::Deps }
        else if i == 2 { Tab::RevDeps }
        else if i == 3 { Tab::Graph }
        else if i == 4 { Tab::NixosOptions }
        else { Tab::HmOptions }
    }

    /// The next tab, wrapping from the last to the first.
    pub fn next(self) -> (t: Tab)
        ensures
            t == tab_at((tab_pos(self) + 1) % 6),
    {
        Tab::at((self.pos() + 1) % 6)
    }

    /// The previous tab, wrapping from the first to the last.
    pub fn prev(self) -> (t: Tab)
        ensures
            t == tab_at((tab_pos(self) + 5) % 6),
    {
        Tab::at((self.pos() + 5) % 6)
    }
}

/// Law: `next` and `prev` undo each other.
pub proof fn law_tab_next_prev(t: Tab)
    ensures
        tab_at((tab_pos(tab_at((tab_pos(t) + 1) % 6)) + 5) % 6) == t,
        tab_at((tab_pos(tab_at((tab_pos(t) + 5) % 6)) + 1) % 6) == t,
{
}

/// Edge-kind tag used in tree node keys.
#[derive(Debug, Clone, Copy, PartialEq, Eq, Structural, Hash)]
pub enum NodeKind {
    Input,
    Propagated,
    Native,
    RevDirect,
    RevTrans,
}

/// A tree row key: package id and the kind of the row.
pub type NodeKey = (u32, NodeKind);

fn key_eq(a: NodeKey, b: NodeKey) -> (r: bool)
    ensures
        r == (a == b),
{
    a.0 == b.0 && a.1 == b.1
}

/// A set of tree keys, kept as a duplicate-free list.
#[derive(Debug)]
pub struct KeySet {
    items: Vec<NodeKey>,
}

impl KeySet {
    /// The keys in the set.
    pub closed spec fn view(&self) -> Set<NodeKey> {
        self.items@.to_set()
    }

    /// No key is stored twice.
    pub closed spec fn wf(&self) -> bool {
        self.items@.no_duplicates()
    }

    /// The empty set.
    pub fn new() -> (s: KeySet)
        ensures
            s.wf(),
            s.view() == Set::<NodeKey>::empty(),
    {
        let s = KeySet { items: Vec::new() };
        assert(s.view() =~= Set::<NodeKey>::empty());
        s
    }

    /// Whether `k` is in the set.
    pub fn contains(&self, k: NodeKey) -> (r: bool)
        ensures
            r == self.view().contains(k),
    {
        let mut i: usize = 0;
        while i < self.items.len()
            invariant
                i <= self.items.len(),
                forall|j: int| 0 <= j < i ==> self.items@[j] != k,
            decreases self.items.len() - i,
        {
            if key_eq(self.items[i], k) {
                assert(self.items@.to_set().contains(self.items@[i as int]));
                return true;
            }
            i += 1;
        }
        proof {
            if self.items@.to_set().contains(k) {
                let j = choose|j: int| 0 <= j < self.items@.len() && self.items@[j] == k;
            }
        }
        false
    }

    /// Adds `k`.
    pub fn insert(&mut self, k: NodeKey)
        requires
            old(self).wf(),
        ensures
            final(self).wf(),
            final(self).view() == old(self).view().insert(k),
    {
        if !self.contains(k) {
            let ghost before = self.items@;
            self.items.push(k);
            proof {
                assert(self.items@ == before.push(k));
                assert(self.items@.to_set() =~= before.to_set().insert(k)) by {
                    assert forall|x: NodeKey| self.items@.to_set().contains(x) implies before.to_set().insert(k).contains(x) by {
                        let j = choose|j: int| 0 <= j < self.items@.len() && self.items@[j] == x;
                        if j < before.len() {
                            assert(before[j] == x);
                        }
                    }
                    assert forall|x: NodeKey| before.to_set().insert(k).contains(x) implies self.items@.to_set().contains(x) by {
                        if x == k {
                            assert(self.items@[before.len() as int] == k);
                        } else {
                            let j = choose|j: int| 0 <= j < before.len() && before[j] == x;
                            assert(self.items@[j] == x);
                        }
                    }
                }
                assert forall|a: int, b: int| 0 <= a < self.items@.len() && 0 <= b < self.items@.len() && a != b implies self.items@[a] != self.items@[b] by {
                    if a == before.len() {
                        assert(!before.to_set().contains(self.items@[b]) || self.items@[b] != k);
                    } else if b == before.len() {
                        assert(before.to_set().contains(before[a]));
                    }
                }
            }
        } else {
            assert(self.view().insert(k) =~= self.view());
        }
    }

    /// Removes `k`.
    pub fn remove(&mut self, k: NodeKey)
        requires
            old(self).wf(),
        ensures
            final(self).wf(),
            final(self).view() == old(self).view().remove(k),
    {
        let ghost before = self.items@;
        let mut kept: Vec<NodeKey> = Vec::new();
        let mut i: usize = 0;
        while i < self.items.len()
            invariant
                before == self.items@,
                before.no_duplicates(),
                i <= before.len(),
                kept@.no_duplicates(),
                forall|x: NodeKey| kept@.contains(x) <==> (x != k && before.take(i as int).contains(x)),
            decreases before.len() - i,
        {
            let x = self.items[i];
            let ghost t0 = before.take(i as int);
            assert(before.take(i + 1) == t0.push(x));
            if !key_eq(x, k) {
                proof {
                    assert(!t0.contains(x)) by {
                        if t0.contains(x) {
                            let j = choose|j: int| 0 <= j < t0.len() && t0[j] == x;
                            assert(before[j] == before[i as int]);
                        }
                    }
                }
                let ghost kb = kept@;
                kept.push(x);
                proof {
                    assert forall|a: int, b: int| 0 <= a < kept@.len() && 0 <= b < kept@.len() && a != b implies kept@[a] != kept@[b] by {
                        if a == kb.len() {
                            assert(!kb.contains(kept@[b]) || kept@[b] != x);
                        } else if b == kb.len() {
                            assert(kb.contains(kb[a]));
                        }
                    }
                    assert forall|y: NodeKey| kept@.contains(y) <==> (y != k && before.take(i + 1).contains(y)) by {
                        if kept@.contains(y) && y != x {
                            let j = choose|j: int| 0 <= j < kept@.len() && kept@[j] == y;
                            assert(j < kb.len());
                            assert(kb[j] == y);
                            assert(kb.contains(y));
                            assert(t0.contains(y));
                            let m = choose|m: int| 0 <= m < t0.len() && t0[m] == y;
                            assert(before.take(i + 1)[m] == y);
                        }
                        if y != k && before.take(i + 1).contains(y) && y != x {
                            let j = choose|j: int| 0 <= j < i + 1 && #[trigger] before.take(i + 1)[j] == y;
                            assert(j < i);
                            assert(t0[j] == y);
                            assert(t0.contains(y));
                            assert(kb.contains(y));
                            let m = choose|m: int| 0 <= m < kb.len() && kb[m] == y;
                            assert(kept@[m] == y);
                        }
                        if y == x {
                            assert(kept@[kb.len() as int] == x);
                            assert(before.take(i + 1)[i as int] == x);
                        }
                    }
                }
            } else {
                proof {
                    assert(x == k);
                    assert forall|y: NodeKey| kept@.contains(y) <==> (y != k && before.take(i + 1).contains(y)) by {
                        if kept@.contains(y) {
                            assert(y != k && t0.contains(y));
                            let j = choose|j: int| 0 <= j < t0.len() && t0[j] == y;
                            assert(before.take(i + 1)[j] == y);
                        }
                        if y != k && before.take(i + 1).contains(y) {
                            let j = choose|j: int| 0 <= j < i + 1 && #[trigger] before.take(i + 1)[j] == y;
                            if j < i {
                                assert(t0[j] == y);
                            } else {
                                assert(before.take(i + 1)[i as int] == x);
                            }
                        }
                        if y != k && t0.contains(y) {
                            let j = choose|j: int| 0 <= j < i && t0[j] == y;
                            assert(before.take(i + 1)[j] == y);
                        }
                    }
                }
            }
            i += 1;
        }
        self.items = kept;
        proof {
            assert(before.take(before.len() as int) == before);
            assert(self.items@.to_set() =~= before.to_set().remove(k));
        }
    }

    /// Removes every key.
    pub fn clear(&mut self)
        ensures
            final(self).wf(),
            final(self).view() == Set::<NodeKey>::empty(),
    {
        self.items = Vec::new();
        assert(self.items@.to_set() =~= Set::<NodeKey>::empty());
    }
}

/// Expansion state of the dependency tree.
#[derive(Debug)]
pub struct TreeState {
    /// Keys of nodes whose children are expanded.
    pub expanded: KeySet,
}

/// Expansion state of the reverse-dependency view.
#[derive(Debug)]
pub struct RevState {
    pub expanded: KeySet,
    /// Whether the "Transitive" section is expanded.
    pub trans_open: bool,
}

impl TreeState {
    /// Nothing expanded.
    pub fn new() -> (s: TreeState)
        ensures
            s.expanded.wf(),
            s.expanded.view() == Set::<NodeKey>::empty(),
    {
        TreeState { expanded: KeySet::new() }
    }
}

impl RevState {
    /// Nothing expanded, transitive section closed.
    pub fn new() -> (s: RevState)
        ensures
            s.expanded.wf(),
            s.expanded.view() == Set::<NodeKey>::empty(),
            !s.trans_open,
    {
        RevState { expanded: KeySet::new(), trans_open: false }
    }
}


/// Number of colour themes the `T` key cycles through.
pub const THEME_COUNT: usize = 8;

/// The phase of the application.
#[derive(Debug)]
pub enum Phase {
    /// Showing the startup cache prompt (a cache was found). `size_bytes`
    /// is the size of the cached data.
    Startup { timestamp: u64, size_bytes: u64, commit: String },
    /// Building / downloading a fresh index.
    Loading { done: u64, total: u64 },
    /// Index is ready and searchable.
    Ready { fresh: bool, unkeyed: bool },
    /// Fatal error during load/build.
    Failed { msg: String },
}

/// A key as the views see it.
#[derive(Debug, Clone, Copy, PartialEq, Eq, Structural)]
pub enum Key {
    Char(char),
    Esc,
    Tab,
    Enter,
    Up,
    Down,
    Left,
    Right,
    PageUp,
    PageDown,
    Backspace,
    Other,
}

/// A key press with the modifiers the views look at.
#[derive(Debug, Clone, Copy, PartialEq, Eq, Structural)]
pub struct KeyPress {
    pub code: Key,
    pub ctrl: bool,
    pub shift: bool,
}

/// What a key press asks for.
#[derive(Debug, Clone, Copy, PartialEq, Eq, Structural)]
pub enum Command {
    Quit,
    /// Continue with the cached index (startup prompt).
    ContinueCached,
    Rebuild,
    /// Close help, else clear the query, else go back to the overview.
    Escape,
    ToggleHelp,
    NextTheme,
    PrevTheme,
    SwitchTab(Tab),
    /// Next tab, or the previous one when `true`.
    CycleTab(bool),
    OpenHomepage,
    /// Redraw the graph around the selection, or jump to the top of a list.
    GraphOrTop,
    /// Jump to the bottom of a list (not in the graph).
    Bottom,
    GraphDepth(i8),
    /// Move the selection by a number of rows (or graph nodes).
    Step(i32),
    /// Collapse the tree row under the cursor (previous node in the graph).
    Collapse,
    /// Toggle the tree row under the cursor (next node in the graph).
    Expand,
    /// Toggle the tree row under the cursor (re-root the graph).
    Follow,
    /// Move a page down (`true`) or up.
    Page(bool),
    Backspace,
    ClearQuery,
    Type(char),
    Nothing,
}

/// Work that the surrounding program carries out after a key press.
#[derive(Debug, Clone)]
pub enum Effect {
    /// Load the cached index in the background.
    LoadCached,
    /// Start a background rebuild of the index.
    StartRebuild,
    /// Open this URL in the system browser.
    OpenUrl(String),
    /// The graph's nodes changed: lay them out again.
    GraphChanged,
    /// The query was edited now (restarts the search debounce).
    QueryEdited,
}

/// The command of a character key.
pub open spec fn char_command(c: char, ctrl: bool, idle: bool) -> Command {
    if c == 'c' && ctrl { Command::Quit }
    else if c == '?' { Command::ToggleHelp }
    else if c == 'T' { Command::PrevTheme }
    else if c == 'R' { Command::Rebuild }
    else if idle && c == 'q' { Command::Quit }
    else if idle && c == 't' { Command::NextTheme }
    else if idle && c == '1' { Command::SwitchTab(Tab::Overview) }
    else if idle && c == '2' { Command::SwitchTab(Tab::Deps) }
    else if idle && c == '3' { Command::SwitchTab(Tab::RevDeps) }
    else if idle && c == '4' { Command::SwitchTab(Tab::Graph) }
    else if idle && c == '5' { Command::SwitchTab(Tab::NixosOptions) }
    else if idle && c == '6' { Command::SwitchTab(Tab::HmOptions) }
    else if idle && c == 'd' { Command::SwitchTab(Tab::Deps) }
    else if idle && c == 'r' { Command::SwitchTab(Tab::RevDeps) }
    else if idle && c == 'v' { Command::SwitchTab(Tab::Graph) }
    else if idle && c == 'o' { Command::OpenHomepage }
    else if idle && c == 'g' { Command::GraphOrTop }
    else if idle && c == 'G' { Command::Bottom }
    else if idle && (c == '+' || c == '=') { Command::GraphDepth(1i8) }
    else if idle && c == '-' { Command::GraphDepth(-1i8) }
    else if idle && c == 'j' { Command::Step(1i32) }
    else if idle && c == 'k' { Command::Step(-1i32) }
    else if idle && c == 'h' { Command::Collapse }
    else if idle && c == 'l' { Command::Expand }
    else if c == 'u' && ctrl { Command::ClearQuery }
    else { Command::Type(c) }
}

/// The command of a key press. Ctrl-C quits in every phase. Command
/// characters act only while the query is empty (`idle`); `t` cycles the
/// theme forward, `T` (always) backward; at the startup prompt `c`, `r` and
/// `q` (either case) continue, rebuild and quit.
pub open spec fn command_spec(k: KeyPress, startup: bool, idle: bool) -> Command {
    if k.code == Key::Char('c') && k.ctrl {
        Command::Quit
    } else if startup && (k.code == Key::Char('c') || k.code == Key::Char('C')) {
        Command::ContinueCached
    } else if startup && (k.code == Key::Char('r') || k.code == Key::Char('R')) {
        Command::Rebuild
    } else if startup && (k.code == Key::Char('q') || k.code == Key::Char('Q')) {
        Command::Quit
    } else {
        match k.code {
            Key::Char(c) => char_command(c, k.ctrl, idle),
            Key::Esc => Command::Escape,
            Key::Tab => Command::CycleTab(k.shift),
            Key::Enter => Command::Follow,
            Key::Up => Command::Step(-1i32),
            Key::Down => Command::Step(1i32),
            Key::Left => Command::Collapse,
            Key::Right => Command::Expand,
            Key::PageUp => Command::Page(false),
            Key::PageDown => Command::Page(true),
            Key::Backspace => Command::Backspace,
            Key::Other => Command::Nothing,
        }
    }
}

fn char_command_of(c: char, ctrl: bool, idle: bool) -> (r: Command)
    ensures
        r == char_command(c, ctrl, idle),
{
    if c == 'c' && ctrl { Command::Quit }
    else if c == '?' { Command::ToggleHelp }
    else if c == 'T' { Command::PrevTheme }
    else if c == 'R' { Command::Rebuild }
    else if idle && c == 'q' { Command::Quit }
    else if idle && c == 't' { Command::NextTheme }
    else if idle && c == '1' { Command::SwitchTab(Tab::Overview) }
    else if idle && c == '2' { Command::SwitchTab(Tab::Deps) }
    else if idle && c == '3' { Command::SwitchTab(Tab::RevDeps) }
    else if idle && c == '4' { Command::SwitchTab(Tab::Graph) }
    else if idle && c == '5' { Command::SwitchTab(Tab::NixosOptions) }
    else if idle && c == '6' { Command::SwitchTab(Tab::HmOptions) }
    else if idle && c == 'd' { Command::SwitchTab(Tab::Deps) }
    else if idle && c == 'r' { Command::SwitchTab(Tab::RevDeps) }
    else if idle && c == 'v' { Command::SwitchTab(Tab::Graph) }
    else if idle && c == 'o' { Command::OpenHomepage }
    else if idle && c == 'g' { Command::GraphOrTop }
    else if idle && c == 'G' { Command::Bottom }
    else if idle && (c == '+' || c == '=') { Command::GraphDepth(1) }
    else if idle && c == '-' { Command::GraphDepth(-1) }
    else if idle && c == 'j' { Command::Step(1) }
    else if idle && c == 'k' { Command::Step(-1) }
    else if idle && c == 'h' { Command::Collapse }
    else if idle && c == 'l' { Command::Expand }
    else if c == 'u' && ctrl { Command::ClearQuery }
    else { Command::Type(c) }
}

/// The command of a key press (see `command_spec`).
pub fn command_for(k: KeyPress, startup: bool, idle: bool) -> (r: Command)
    ensures
        r == command_spec(k, startup, idle),
{
    if k.code == Key::Char('c') && k.ctrl {
        Command::Quit
    } else if startup && (k.code == Key::Char('c') || k.code == Key::Char('C')) {
        Command::ContinueCached
    } else if startup && (k.code == Key::Char('r') || k.code == Key::Char('R')) {
        Command::Rebuild
    } else if startup && (k.code == Key::Char('q') || k.code == Key::Char('Q')) {
        Command::Quit
    } else {
        match k.code {
            Key::Char(c) => char_command_of(c, k.ctrl, idle),
            Key::Esc => Command::Escape,
            Key::Tab => Command::CycleTab(k.shift),
            Key::Enter => Command::Follow,
            Key::Up => Command::Step(-1),
            Key::Down => Command::Step(1),
            Key::Left => Command::Collapse,
            Key::Right => Command::Expand,
            Key::PageUp => Command::Page(false),
            Key::PageDown => Command::Page(true),
            Key::Backspace => Command::Backspace,
            Key::Other => Command::Nothing,
        }
    }
}


/// A field group of the application state, for stating what a step changes.
pub enum Field {
    Phase,
    Query,
    Nav,
    Tab,
    Trees,
    Graph,
    Lists,
    Theme,
    Help,
    Dirty,
    Quit,
}

/// The characters of an optional string.
pub open spec fn opt_view(o: Option<String>) -> Option<Seq<char>> {
    match o {
        Some(s) => Some(s@),
        None => None,
    }
}

/// Two graph states show the same thing.
pub open spec fn same_graph(a: GraphView, b: GraphView) -> bool {
    &&& a.root == b.root
    &&& a.depth == b.depth
    &&& a.nodes@ == b.nodes@
    &&& a.edges@ == b.edges@
    &&& a.selected == b.selected
    &&& a.truncated == b.truncated
    &&& a.laid_out == b.laid_out
}

/// `lo` if `v < lo`, `hi` if `v > hi`, else `v`.
pub open spec fn clamp_int(v: int, lo: int, hi: int) -> int {
    if v < lo { lo } else if v > hi { hi } else { v }
}

/// Whether the index argument is usable.
pub open spec fn index_ok(index: Option<&Index>) -> bool {
    match index {
        Some(ix) => ix.wf(),
        None => true,
    }
}

/// The ids `0..n` in order.
pub open spec fn all_positions(n: nat) -> Seq<usize> {
    Seq::new(n, |i: int| i as usize)
}

/// The option list shown for query `q` over options with `names` and `descs`:
/// every option when the lowercased query is empty, else the matching ones.
pub open spec fn option_filter(names: Seq<Seq<char>>, descs: Seq<Seq<char>>, q: Seq<char>) -> Seq<usize> {
    if lowercase(q).len() == 0 { all_positions(names.len()) } else { matching_indices(names, descs, q) }
}

/// With an empty lowercased query every option matches.
proof fn lemma_matching_all(names: Seq<Seq<char>>, descs: Seq<Seq<char>>, q: Seq<char>)
    requires
        lowercase(q).len() == 0,
    ensures
        matching_indices(names, descs, q) == all_positions(names.len()),
    decreases names.len(),
{
    if names.len() > 0 {
        let k = names.len() - 1;
        lemma_matching_all(names.drop_last(), descs, q);
        crate::options::lemma_contains_empty(lowercase(names[k]), lowercase(q));
        assert(all_positions(names.len()) =~= all_positions(names.drop_last().len()).push(k as usize));
    } else {
        assert(all_positions(0) =~= Seq::<usize>::empty());
    }
}

/// Law: the option list of an options tab is exactly what the options
/// search returns for the query (all options for an empty one).
pub proof fn law_option_filter_is_search(names: Seq<Seq<char>>, descs: Seq<Seq<char>>, q: Seq<char>)
    ensures
        option_filter(names, descs, q) == matching_indices(names, descs, q),
{
    if lowercase(q).len() == 0 {
        lemma_matching_all(names, descs, q);
    }
}

/// The state behind the interactive views. The package index and the
/// options index are passed in where a step needs them.
#[derive(Debug)]
pub struct AppCore {
    /// Positions of the listed NixOS options.
    pub nixos_results: Vec<usize>,
    /// Positions of the listed Home-Manager options.
    pub hm_results: Vec<usize>,
    pub phase: Phase,
    pub query: String,
    /// A query waiting for the search debounce.
    pub pending_query: Option<String>,
    /// Package ids of the current search hits, in display order.
    pub results: Vec<u32>,
    pub rendered_ticket: u64,
    pub cursor: usize,
    pub scroll: usize,
    pub tab: Tab,
    pub tree: TreeState,
    pub rev: RevState,
    pub graph: GraphView,
    pub theme_idx: usize,
    pub help_open: bool,
    pub dirty: bool,
    pub tick: u64,
    pub size: (u16, u16),
    pub quit: bool,
    pub graph_dirty: bool,
}

/// Everything in `b` equals `a` except the field groups in `s`.
pub open spec fn unchanged_except(a: AppCore, b: AppCore, s: Set<Field>) -> bool {
    &&& b.results@ == a.results@
    &&& b.rendered_ticket == a.rendered_ticket
    &&& b.tick == a.tick
    &&& b.size == a.size
    &&& b.graph_dirty == a.graph_dirty
    &&& (!s.contains(Field::Phase) ==> b.phase == a.phase)
    &&& (!s.contains(Field::Query) ==> b.query@ == a.query@ && opt_view(b.pending_query) == opt_view(a.pending_query))
    &&& (!s.contains(Field::Nav) ==> b.cursor == a.cursor && b.scroll == a.scroll)
    &&& (!s.contains(Field::Tab) ==> b.tab == a.tab)
    &&& (!s.contains(Field::Trees) ==> b.tree.expanded.view() == a.tree.expanded.view()
        && b.rev.expanded.view() == a.rev.expanded.view() && b.rev.trans_open == a.rev.trans_open)
    &&& (!s.contains(Field::Graph) ==> same_graph(a.graph, b.graph))
    &&& (!s.contains(Field::Lists) ==> b.nixos_results@ == a.nixos_results@ && b.hm_results@ == a.hm_results@)
    &&& (!s.contains(Field::Theme) ==> b.theme_idx == a.theme_idx)
    &&& (!s.contains(Field::Help) ==> b.help_open == a.help_open)
    &&& (!s.contains(Field::Dirty) ==> b.dirty == a.dirty)
    &&& (!s.contains(Field::Quit) ==> b.quit == a.quit)
}

/// `fx` is exactly the one data-less effect `e`.
pub open spec fn just(fx: Seq<Effect>, e: Effect) -> bool {
    fx.len() == 1 && fx[0] == e
}

impl AppCore {
    /// Internal consistency of the state.
    pub open spec fn wf(&self) -> bool {
        &&& self.tree.expanded.wf()
        &&& self.rev.expanded.wf()
        &&& self.graph.wf()
        &&& self.theme_idx < THEME_COUNT
    }

    /// The package id under the cursor of the hit list, if any.
    pub open spec fn sel_spec(&self) -> Option<u32> {
        if self.cursor < self.results.len() { Some(self.results@[self.cursor as int]) } else { None }
    }

    /// The selected package id, if any.
    pub fn selected_id(&self) -> (r: Option<u32>)
        ensures
            r == self.sel_spec(),
    {
        if self.cursor < self.results.len() {
            Some(self.results[self.cursor])
        } else {
            None
        }
    }

    /// The selected package, if any.
    pub fn selected_pkg<'a>(&self, index: &'a Index) -> (r: Option<&'a crate::index::Package>)
        ensures
            r == (match self.sel_spec() {
                Some(id) => if id < index.packages.len() { Some(&index.packages@[id as int]) } else { None },
                None => None,
            }),
    {
        match self.selected_id() {
            Some(id) => {
                if (id as usize) < index.packages.len() {
                    Some(&index.packages[id as usize])
                } else {
                    None
                }
            },
            None => None,
        }
    }

    /// Whether a loading animation is running.
    pub fn animating(&self) -> (b: bool)
        ensures
            b == (self.phase is Loading),
    {
        match self.phase {
            Phase::Loading { .. } => true,
            _ => false,
        }
    }

    /// The rows of the dependency (or reverse) tree of the selection.
    pub open spec fn tree_rows(&self, ix: &Index, id: u32) -> Seq<crate::ui::tree::TreeRow> {
        if self.tab == Tab::Deps {
            dep_rows_spec(ix, self.tree.expanded.view(), id, usize::MAX)
        } else {
            rev_rows_spec(ix, self.rev.trans_open, id, usize::MAX)
        }
    }

    /// Number of navigable rows in the current tab.
    pub open spec fn rows_spec(&self, index: Option<&Index>) -> nat {
        match self.tab {
            Tab::Overview => self.results.len() as nat,
            Tab::Deps | Tab::RevDeps => match (index, self.sel_spec()) {
                (Some(ix), Some(id)) => self.tree_rows(ix, id).len(),
                _ => 0,
            },
            Tab::NixosOptions => self.nixos_results.len() as nat,
            Tab::HmOptions => self.hm_results.len() as nat,
            Tab::Graph => 0,
        }
    }

    /// Number of navigable rows in the current tab.
    pub fn row_count(&self, index: Option<&Index>) -> (n: usize)
        requires
            index_ok(index),
        ensures
            n == self.rows_spec(index),
    {
        match self.tab {
            Tab::Overview => self.results.len(),
            Tab::Deps | Tab::RevDeps => {
                match (index, self.selected_id()) {
                    (Some(ix), Some(id)) => {
                        if self.tab == Tab::Deps {
                            dep_rows(ix, &self.tree, id, usize::MAX).1
                        } else {
                            rev_rows(ix, &self.rev, id, usize::MAX).1
                        }
                    },
                    _ => 0,
                }
            },
            Tab::NixosOptions => self.nixos_results.len(),
            Tab::HmOptions => self.hm_results.len(),
            Tab::Graph => 0,
        }
    }

    /// The key of the tree row under the cursor (Deps/RevDeps tabs).
    pub open spec fn cursor_key_spec(&self, index: Option<&Index>) -> Option<NodeKey> {
        match (index, self.sel_spec()) {
            (Some(ix), Some(id)) => {
                let rows = self.tree_rows(ix, id);
                if self.cursor < rows.len() { Some(rows[self.cursor as int].key) } else { None }
            },
            _ => None,
        }
    }

    /// The key of the tree row under the cursor (Deps/RevDeps tabs).
    pub fn cursor_key(&self, index: Option<&Index>) -> (r: Option<NodeKey>)
        requires
            index_ok(index),
        ensures
            r == self.cursor_key_spec(index),
    {
        match (index, self.selected_id()) {
            (Some(ix), Some(id)) => {
                let (rows, _) = if self.tab == Tab::Deps {
                    dep_rows(ix, &self.tree, id, usize::MAX)
                } else {
                    rev_rows(ix, &self.rev, id, usize::MAX)
                };
                if self.cursor < rows.len() {
                    Some(rows[self.cursor].key)
                } else {
                    None
                }
            },
            _ => None,
        }
    }
}


/// After `rebuild`: unless an index is already loading, the phase becomes
/// loading and a rebuild starts.
pub open spec fn rebuild_rel(a: AppCore, b: AppCore, fx: Seq<Effect>) -> bool {
    if a.phase is Loading {
        unchanged_except(a, b, Set::empty()) && fx.len() == 0
    } else {
        &&& unchanged_except(a, b, set![Field::Phase, Field::Dirty])
        &&& b.phase == (Phase::Loading { done: 0, total: 0 })
        &&& b.dirty
        &&& just(fx, Effect::StartRebuild)
    }
}

/// The graph id `ensure_graph` rebuilds around, if any: the selection,
/// when it names a package and the graph is not already laid out for it.
pub open spec fn graph_target(a: AppCore, index: Option<&Index>) -> Option<u32> {
    match (index, a.sel_spec()) {
        (Some(ix), Some(id)) => if id < ix.packages.len() && (a.graph.root != id || !a.graph.laid_out) {
            Some(id)
        } else {
            None
        },
        _ => None,
    }
}

/// After `ensure_graph`.
pub open spec fn ensure_graph_rel(a: AppCore, index: Option<&Index>, b: AppCore, fx: Seq<Effect>) -> bool {
    match graph_target(a, index) {
        Some(id) => {
            &&& unchanged_except(a, b, set![Field::Graph, Field::Dirty])
            &&& b.graph.rebuilt(index.unwrap(), id, DEFAULT_DEPTH)
            &&& b.dirty
            &&& just(fx, Effect::GraphChanged)
        },
        None => unchanged_except(a, b, Set::empty()) && fx.len() == 0,
    }
}

/// After `switch_tab(t)`: a new tab resets the scroll, marks the view dirty
/// and, for the graph tab, builds the graph of the selection.
pub open spec fn switch_rel(a: AppCore, t: Tab, index: Option<&Index>, b: AppCore, fx: Seq<Effect>) -> bool {
    if t == a.tab {
        unchanged_except(a, b, Set::empty()) && fx.len() == 0
    } else {
        &&& unchanged_except(a, b, set![Field::Tab, Field::Nav, Field::Graph, Field::Dirty])
        &&& b.tab == t
        &&& b.cursor == a.cursor
        &&& b.scroll == 0
        &&& b.dirty
        &&& if t == Tab::Graph {
            match graph_target(a, index) {
                Some(id) => b.graph.rebuilt(index.unwrap(), id, DEFAULT_DEPTH) && just(fx, Effect::GraphChanged),
                None => same_graph(a.graph, b.graph) && fx.len() == 0,
            }
        } else {
            same_graph(a.graph, b.graph) && fx.len() == 0
        }
    }
}

/// After moving the graph selection by `delta`.
pub open spec fn select_rel(a: AppCore, delta: int, b: AppCore) -> bool {
    &&& unchanged_except(a, b, set![Field::Graph, Field::Dirty])
    &&& b.graph.root == a.graph.root
    &&& b.graph.depth == a.graph.depth
    &&& b.graph.nodes@ == a.graph.nodes@
    &&& b.graph.edges@ == a.graph.edges@
    &&& b.graph.truncated == a.graph.truncated
    &&& b.graph.laid_out == a.graph.laid_out
    &&& b.graph.selected == (if a.graph.nodes.len() == 0 {
        a.graph.selected as int
    } else {
        (a.graph.selected + delta) % (a.graph.nodes.len() as int)
    })
    &&& b.dirty
}

/// After `move_cursor(delta)`: the cursor moves within the rows.
pub open spec fn move_rel(a: AppCore, delta: int, index: Option<&Index>, b: AppCore) -> bool {
    let n = a.rows_spec(index);
    if n == 0 {
        unchanged_except(a, b, Set::empty())
    } else {
        &&& unchanged_except(a, b, set![Field::Nav, Field::Dirty])
        &&& b.cursor == clamp_int(a.cursor + delta, 0, n - 1)
        &&& b.scroll == a.scroll
        &&& b.dirty
    }
}

/// After `page_cursor(page, down)`.
pub open spec fn page_rel(a: AppCore, page: nat, down: bool, index: Option<&Index>, b: AppCore) -> bool {
    let n = a.rows_spec(index);
    if n == 0 {
        unchanged_except(a, b, Set::empty())
    } else {
        &&& unchanged_except(a, b, set![Field::Nav, Field::Dirty])
        &&& b.cursor == (if down {
            if a.cursor + page < n - 1 { a.cursor + page } else { n - 1 }
        } else {
            if a.cursor >= page { a.cursor - page } else { 0 }
        })
        &&& b.scroll == a.scroll
        &&& b.dirty
    }
}

/// After `jump_bottom`.
pub open spec fn bottom_rel(a: AppCore, index: Option<&Index>, b: AppCore) -> bool {
    let n = a.rows_spec(index);
    if n == 0 {
        unchanged_except(a, b, Set::empty())
    } else {
        &&& unchanged_except(a, b, set![Field::Nav, Field::Dirty])
        &&& b.cursor == n - 1
        &&& b.scroll == a.scroll
        &&& b.dirty
    }
}

/// After `toggle_row(k)`: in the Deps tab the key flips in the tree set;
/// in the RevDeps tab the transitive-section key flips that section and
/// any other key flips in the reverse set; other tabs are left alone.
pub open spec fn toggle_rel(a: AppCore, k: NodeKey, b: AppCore) -> bool {
    match a.tab {
        Tab::Deps => {
            &&& unchanged_except(a, b, set![Field::Trees, Field::Dirty])
            &&& b.tree.expanded.view() == (if a.tree.expanded.view().contains(k) {
                a.tree.expanded.view().remove(k)
            } else {
                a.tree.expanded.view().insert(k)
            })
            &&& b.rev.expanded.view() == a.rev.expanded.view()
            &&& b.rev.trans_open == a.rev.trans_open
            &&& b.dirty
        },
        Tab::RevDeps => {
            &&& unchanged_except(a, b, set![Field::Trees, Field::Dirty])
            &&& b.tree.expanded.view() == a.tree.expanded.view()
            &&& if k.0 == u32::MAX && k.1 == NodeKind::RevTrans {
                b.rev.trans_open == !a.rev.trans_open && b.rev.expanded.view() == a.rev.expanded.view()
            } else {
                &&& b.rev.trans_open == a.rev.trans_open
                &&& b.rev.expanded.view() == (if a.rev.expanded.view().contains(k) {
                    a.rev.expanded.view().remove(k)
                } else {
                    a.rev.expanded.view().insert(k)
                })
            }
            &&& b.dirty
        },
        _ => unchanged_except(a, b, Set::empty()),
    }
}

/// After collapsing the tree row with key `k`.
pub open spec fn collapse_rel(a: AppCore, k: NodeKey, b: AppCore) -> bool {
    &&& unchanged_except(a, b, set![Field::Trees, Field::Dirty])
    &&& b.rev.trans_open == a.rev.trans_open
    &&& if a.tab == Tab::Deps {
        b.tree.expanded.view() == a.tree.expanded.view().remove(k) && b.rev.expanded.view() == a.rev.expanded.view()
    } else {
        b.rev.expanded.view() == a.rev.expanded.view().remove(k) && b.tree.expanded.view() == a.tree.expanded.view()
    }
    &&& b.dirty
}

/// After rebuilding the graph around `id` at `depth` (when `id` names a package).
pub open spec fn regraph_rel(a: AppCore, index: Option<&Index>, id: Option<u32>, depth: u8, b: AppCore, fx: Seq<Effect>) -> bool {
    match (index, id) {
        (Some(ix), Some(i)) => if i < ix.packages.len() {
            &&& unchanged_except(a, b, set![Field::Graph, Field::Dirty])
            &&& b.graph.rebuilt(ix, i, depth)
            &&& b.dirty
            &&& just(fx, Effect::GraphChanged)
        } else {
            unchanged_except(a, b, Set::empty()) && fx.len() == 0
        },
        _ => unchanged_except(a, b, Set::empty()) && fx.len() == 0,
    }
}

/// The node selected in the graph, if any.
pub open spec fn graph_sel(g: GraphView) -> Option<u32> {
    if g.selected < g.nodes.len() { Some(g.nodes@[g.selected as int]) } else { None }
}

/// After `graph_depth_delta(delta)`.
pub open spec fn depth_rel(a: AppCore, delta: int, index: Option<&Index>, b: AppCore, fx: Seq<Effect>) -> bool {
    let d = clamp_int(a.graph.depth + delta, 1, 8);
    if index is Some && d != a.graph.depth {
        regraph_rel(a, index, Some(a.graph.root), d as u8, b, fx)
    } else {
        unchanged_except(a, b, Set::empty()) && fx.len() == 0
    }
}

/// After an edit that leaves query `q`: the query waits for the debounce,
/// the cursor returns to the top and the options tabs refilter at once.
pub open spec fn edit_rel(a: AppCore, q: Seq<char>, opts: Option<&OptionsIndex>, b: AppCore, fx: Seq<Effect>) -> bool {
    &&& unchanged_except(a, b, set![Field::Query, Field::Nav, Field::Lists, Field::Dirty])
    &&& b.query@ == q
    &&& opt_view(b.pending_query) == Some(q)
    &&& b.cursor == 0
    &&& b.scroll == 0
    &&& just(fx, Effect::QueryEdited)
    &&& match (a.tab, opts) {
        (Tab::NixosOptions, Some(o)) => {
            &&& b.nixos_results@ == option_filter(nixos_names(o.doc.nixos_options@), nixos_descs(o.doc.nixos_options@), q)
            &&& b.hm_results@ == a.hm_results@
        },
        (Tab::HmOptions, Some(o)) => {
            &&& b.hm_results@ == option_filter(hm_names(o.doc.hm_options@), hm_descs(o.doc.hm_options@), q)
            &&& b.nixos_results@ == a.nixos_results@
        },
        _ => b.nixos_results@ == a.nixos_results@ && b.hm_results@ == a.hm_results@,
    }
}

/// The homepage opened for the selection, if any.
pub open spec fn homepage_spec(a: AppCore, index: Option<&Index>) -> Option<Seq<char>> {
    match (index, a.sel_spec()) {
        (Some(ix), Some(id)) => if id < ix.packages.len() && ix.packages@[id as int].homepage@.len() > 0 {
            Some(ix.packages@[id as int].homepage@)
        } else {
            None
        },
        _ => None,
    }
}

/// The query after deleting its last character (unchanged when empty).
pub open spec fn popped(q: Seq<char>) -> Seq<char> {
    if q.len() > 0 { q.drop_last() } else { q }
}

/// What carrying out `cmd` does to the state `a`, giving `b` and effects `fx`.
pub open spec fn apply_rel(a: AppCore, cmd: Command, index: Option<&Index>, opts: Option<&OptionsIndex>, b: AppCore, fx: Seq<Effect>) -> bool {
    match cmd {
        Command::Quit => unchanged_except(a, b, set![Field::Quit]) && b.quit && fx.len() == 0,
        Command::ContinueCached => {
            &&& unchanged_except(a, b, set![Field::Phase, Field::Dirty])
            &&& b.phase == (Phase::Loading { done: 0, total: 0 })
            &&& b.dirty
            &&& just(fx, Effect::LoadCached)
        },
        Command::Rebuild => rebuild_rel(a, b, fx),
        Command::Escape => if a.help_open {
            unchanged_except(a, b, set![Field::Help, Field::Dirty]) && !b.help_open && b.dirty && fx.len() == 0
        } else if a.query@.len() > 0 {
            &&& unchanged_except(a, b, set![Field::Query, Field::Dirty])
            &&& b.query@.len() == 0
            &&& opt_view(b.pending_query) == Some(Seq::<char>::empty())
            &&& b.dirty
            &&& just(fx, Effect::QueryEdited)
        } else if a.tab != Tab::Overview {
            switch_rel(a, Tab::Overview, index, b, fx)
        } else {
            unchanged_except(a, b, set![Field::Dirty]) && b.dirty && fx.len() == 0
        },
        Command::ToggleHelp => unchanged_except(a, b, set![Field::Help, Field::Dirty]) && b.help_open == !a.help_open && b.dirty && fx.len() == 0,
        Command::NextTheme => {
            &&& unchanged_except(a, b, set![Field::Theme, Field::Dirty])
            &&& b.theme_idx == (a.theme_idx + 1) % (THEME_COUNT as int)
            &&& b.dirty
            &&& fx.len() == 0
        },
        Command::PrevTheme => {
            &&& unchanged_except(a, b, set![Field::Theme, Field::Dirty])
            &&& b.theme_idx == (a.theme_idx + THEME_COUNT - 1) % (THEME_COUNT as int)
            &&& b.dirty
            &&& fx.len() == 0
        },
        Command::SwitchTab(t) => switch_rel(a, t, index, b, fx),
        Command::CycleTab(back) => switch_rel(a, if back {
            tab_at((tab_pos(a.tab) + 5) % 6)
        } else {
            tab_at((tab_pos(a.tab) + 1) % 6)
        }, index, b, fx),
        Command::OpenHomepage => unchanged_except(a, b, Set::empty()) && match homepage_spec(a, index) {
            Some(url) => fx.len() == 1 && (fx[0] matches Effect::OpenUrl(u) && u@ == url),
            None => fx.len() == 0,
        },
        Command::GraphOrTop => if a.tab == Tab::Graph {
            regraph_rel(a, index, a.sel_spec(), a.graph.depth, b, fx)
        } else {
            unchanged_except(a, b, set![Field::Nav, Field::Dirty]) && b.cursor == 0 && b.scroll == a.scroll && b.dirty && fx.len() == 0
        },
        Command::Bottom => fx.len() == 0 && if a.tab != Tab::Graph {
            bottom_rel(a, index, b)
        } else {
            unchanged_except(a, b, Set::empty())
        },
        Command::GraphDepth(d) => if a.tab == Tab::Graph {
            depth_rel(a, d as int, index, b, fx)
        } else {
            unchanged_except(a, b, Set::empty()) && fx.len() == 0
        },
        Command::Step(d) => fx.len() == 0 && if a.tab == Tab::Graph {
            select_rel(a, d as int, b)
        } else {
            move_rel(a, d as int, index, b)
        },
        Command::Collapse => fx.len() == 0 && if a.tab == Tab::Graph {
            select_rel(a, -1, b)
        } else if a.tab == Tab::Deps || a.tab == Tab::RevDeps {
            match a.cursor_key_spec(index) {
                Some(k) => collapse_rel(a, k, b),
                None => unchanged_except(a, b, Set::empty()),
            }
        } else {
            unchanged_except(a, b, Set::empty())
        },
        Command::Expand => fx.len() == 0 && if a.tab == Tab::Graph {
            select_rel(a, 1, b)
        } else if a.tab == Tab::Deps || a.tab == Tab::RevDeps {
            match a.cursor_key_spec(index) {
                Some(k) => toggle_rel(a, k, b),
                None => unchanged_except(a, b, Set::empty()),
            }
        } else {
            unchanged_except(a, b, Set::empty())
        },
        Command::Follow => if a.tab == Tab::Graph {
            regraph_rel(a, index, graph_sel(a.graph), a.graph.depth, b, fx)
        } else if a.tab == Tab::Deps || a.tab == Tab::RevDeps {
            fx.len() == 0 && match a.cursor_key_spec(index) {
                Some(k) => toggle_rel(a, k, b),
                None => unchanged_except(a, b, Set::empty()),
            }
        } else {
            unchanged_except(a, b, Set::empty()) && fx.len() == 0
        },
        Command::Page(down) => fx.len() == 0 && page_rel(a, 10, down, index, b),
        Command::Backspace => edit_rel(a, popped(a.query@), opts, b, fx) && b.dirty,
        Command::ClearQuery => {
            &&& unchanged_except(a, b, set![Field::Query, Field::Nav, Field::Dirty])
            &&& b.query@.len() == 0
            &&& opt_view(b.pending_query) == Some(Seq::<char>::empty())
            &&& b.cursor == 0
            &&& b.scroll == 0
            &&& b.dirty
            &&& just(fx, Effect::QueryEdited)
        },
        Command::Type(c) => edit_rel(a, a.query@.push(c), opts, b, fx) && b.dirty,
        Command::Nothing => unchanged_except(a, b, Set::empty()) && fx.len() == 0,
    }
}


fn one(e: Effect) -> (fx: Vec<Effect>)
    ensures
        fx@ == seq![e],
{
    let mut fx: Vec<Effect> = Vec::new();
    fx.push(e);
    fx
}

/// The positions `0..n`.
pub fn positions(n: usize) -> (r: Vec<usize>)
    ensures
        r@ == all_positions(n as nat),
{
    let mut r: Vec<usize> = Vec::new();
    let mut i: usize = 0;
    while i < n
        invariant
            i <= n,
            r@ == all_positions(i as nat),
        decreases n - i,
    {
        r.push(i);
        assert(r@ == all_positions((i + 1) as nat));
        i += 1;
    }
    r
}

/// `s` without its last character (unchanged when empty).
fn without_last(s: &String) -> (r: String)
    ensures
        r@ == popped(s@),
{
    let cs = chars_of(s.as_str());
    if cs.len() == 0 {
        return String::new();
    }
    let r = string_from_range(&cs, 0, cs.len() - 1);
    assert(cs@.subrange(0, cs.len() - 1) == s@.drop_last());
    r
}

impl AppCore {
    /// Rebuild the index in the background (the current index stays usable).
    pub fn rebuild(&mut self) -> (fx: Vec<Effect>)
        requires
            old(self).wf(),
        ensures
            final(self).wf(),
            rebuild_rel(*old(self), *final(self), fx@),
    {
        if let Phase::Loading { .. } = self.phase {
            return Vec::new();
        }
        self.phase = Phase::Loading { done: 0, total: 0 };
        self.dirty = true;
        one(Effect::StartRebuild)
    }

    /// (Re)build the graph view from the current selection.
    pub fn ensure_graph(&mut self, index: Option<&Index>) -> (fx: Vec<Effect>)
        requires
            old(self).wf(),
            index_ok(index),
        ensures
            final(self).wf(),
            ensure_graph_rel(*old(self), index, *final(self), fx@),
    {
        match (index, self.selected_id()) {
            (Some(ix), Some(id)) => {
                if (id as usize) < ix.packages.len() && (self.graph.root != id || !self.graph.laid_out) {
                    self.graph.rebuild(ix, id, DEFAULT_DEPTH);
                    self.dirty = true;
                    return one(Effect::GraphChanged);
                }
                Vec::new()
            },
            _ => Vec::new(),
        }
    }

    /// Switch to `tab`.
    pub fn switch_tab(&mut self, tab: Tab, index: Option<&Index>) -> (fx: Vec<Effect>)
        requires
            old(self).wf(),
            index_ok(index),
        ensures
            final(self).wf(),
            switch_rel(*old(self), tab, index, *final(self), fx@),
    {
        if tab == self.tab {
            return Vec::new();
        }
        self.tab = tab;
        self.scroll = 0;
        let fx = if tab == Tab::Graph { self.ensure_graph(index) } else { Vec::new() };
        self.dirty = true;
        fx
    }

    /// Toggle expansion of the tree row with key `key` (Deps/RevDeps tabs).
    pub fn toggle_row(&mut self, key: NodeKey)
        requires
            old(self).wf(),
        ensures
            final(self).wf(),
            toggle_rel(*old(self), key, *final(self)),
    {
        match self.tab {
            Tab::Deps => {
                if self.tree.expanded.contains(key) {
                    self.tree.expanded.remove(key);
                } else {
                    self.tree.expanded.insert(key);
                }
            },
            Tab::RevDeps => {
                if key.0 == u32::MAX && key.1 == NodeKind::RevTrans {
                    self.rev.trans_open = !self.rev.trans_open;
                } else if self.rev.expanded.contains(key) {
                    self.rev.expanded.remove(key);
                } else {
                    self.rev.expanded.insert(key);
                }
            },
            _ => {
                return;
            },
        }
        self.dirty = true;
    }

    fn collapse_row(&mut self, key: NodeKey)
        requires
            old(self).wf(),
        ensures
            final(self).wf(),
            collapse_rel(*old(self), key, *final(self)),
    {
        if self.tab == Tab::Deps {
            self.tree.expanded.remove(key);
        } else {
            self.rev.expanded.remove(key);
        }
        self.dirty = true;
    }

    fn regraph(&mut self, index: Option<&Index>, id: Option<u32>, depth: u8) -> (fx: Vec<Effect>)
        requires
            old(self).wf(),
            index_ok(index),
        ensures
            final(self).wf(),
            regraph_rel(*old(self), index, id, depth, *final(self), fx@),
    {
        match (index, id) {
            (Some(ix), Some(i)) => {
                if (i as usize) < ix.packages.len() {
                    self.graph.rebuild(ix, i, depth);
                    self.dirty = true;
                    one(Effect::GraphChanged)
                } else {
                    Vec::new()
                }
            },
            _ => Vec::new(),
        }
    }

    /// Follow the selected graph node as the new root.
    pub fn graph_follow(&mut self, index: Option<&Index>) -> (fx: Vec<Effect>)
        requires
            old(self).wf(),
            index_ok(index),
        ensures
            final(self).wf(),
            regraph_rel(*old(self), index, graph_sel(old(self).graph), old(self).graph.depth, *final(self), fx@),
    {
        let id = self.graph.selected_id();
        let depth = self.graph.depth;
        self.regraph(index, id, depth)
    }

    /// Change the graph depth by `delta` (within `1..=8`).
    pub fn graph_depth_delta(&mut self, delta: i8, index: Option<&Index>) -> (fx: Vec<Effect>)
        requires
            old(self).wf(),
            index_ok(index),
        ensures
            final(self).wf(),
            depth_rel(*old(self), delta as int, index, *final(self), fx@),
    {
        if index.is_none() {
            return Vec::new();
        }
        let depth = clamp_depth(self.graph.depth, delta);
        if depth != self.graph.depth {
            let root = self.graph.root;
            self.regraph(index, Some(root), depth)
        } else {
            Vec::new()
        }
    }

    /// Move the list cursor by `delta` rows, staying within the rows.
    pub fn move_cursor(&mut self, delta: i32, index: Option<&Index>)
        requires
            old(self).wf(),
            index_ok(index),
        ensures
            final(self).wf(),
            move_rel(*old(self), delta as int, index, *final(self)),
    {
        let n = self.row_count(index);
        if n == 0 {
            return;
        }
        let v: i128 = self.cursor as i128 + delta as i128;
        let hi: i128 = (n - 1) as i128;
        self.cursor = if v < 0 { 0 } else if v > hi { n - 1 } else { v as usize };
        self.dirty = true;
    }

    /// Move the list cursor a page of `page` rows down or up.
    pub fn page_cursor(&mut self, page: usize, down: bool, index: Option<&Index>)
        requires
            old(self).wf(),
            index_ok(index),
        ensures
            final(self).wf(),
            page_rel(*old(self), page as nat, down, index, *final(self)),
    {
        let n = self.row_count(index);
        if n == 0 {
            return;
        }
        self.cursor = if down {
            if self.cursor < n - 1 && page < (n - 1) - self.cursor { self.cursor + page } else { n - 1 }
        } else {
            if self.cursor >= page { self.cursor - page } else { 0 }
        };
        self.dirty = true;
    }

    /// Jump to the first row.
    pub fn jump_top(&mut self)
        requires
            old(self).wf(),
        ensures
            final(self).wf(),
            unchanged_except(*old(self), *final(self), set![Field::Nav, Field::Dirty]),
            final(self).cursor == 0,
            final(self).scroll == old(self).scroll,
            final(self).dirty,
    {
        self.cursor = 0;
        self.dirty = true;
    }

    /// Jump to the last row.
    pub fn jump_bottom(&mut self, index: Option<&Index>)
        requires
            old(self).wf(),
            index_ok(index),
        ensures
            final(self).wf(),
            bottom_rel(*old(self), index, *final(self)),
    {
        let n = self.row_count(index);
        if n > 0 {
            self.cursor = n - 1;
            self.dirty = true;
        }
    }

    /// Refilter the options list of the current options tab.
    fn filter_options(&mut self, opts: Option<&OptionsIndex>)
        requires
            old(self).wf(),
            old(self).tab == Tab::NixosOptions || old(self).tab == Tab::HmOptions,
        ensures
            final(self).wf(),
            match opts {
                None => unchanged_except(*old(self), *final(self), Set::empty()),
                Some(o) => {
                    &&& unchanged_except(*old(self), *final(self), set![Field::Lists, Field::Nav])
                    &&& final(self).cursor == 0
                    &&& final(self).scroll == 0
                    &&& if old(self).tab == Tab::NixosOptions {
                        &&& final(self).nixos_results@ == option_filter(nixos_names(o.doc.nixos_options@), nixos_descs(o.doc.nixos_options@), old(self).query@)
                        &&& final(self).hm_results@ == old(self).hm_results@
                    } else {
                        &&& final(self).hm_results@ == option_filter(hm_names(o.doc.hm_options@), hm_descs(o.doc.hm_options@), old(self).query@)
                        &&& final(self).nixos_results@ == old(self).nixos_results@
                    }
                },
            },
    {
        let o = match opts {
            Some(o) => o,
            None => {
                return;
            },
        };
        let q = to_lower(self.query.as_str());
        if self.tab == Tab::NixosOptions {
            assert(nixos_names(o.doc.nixos_options@).len() == o.doc.nixos_options.len());
            if q.as_str().is_empty() {
                self.nixos_results = positions(o.doc.nixos_options.len());
            } else {
                self.nixos_results = filter_nixos(&o.doc.nixos_options, self.query.as_str());
            }
        } else {
            assert(hm_names(o.doc.hm_options@).len() == o.doc.hm_options.len());
            if q.as_str().is_empty() {
                self.hm_results = positions(o.doc.hm_options.len());
            } else {
                self.hm_results = filter_hm(&o.doc.hm_options, self.query.as_str());
            }
        }
        self.cursor = 0;
        self.scroll = 0;
    }

    /// Record an edited query: it waits for the debounce, the cursor goes
    /// back to the top and the options tabs refilter at once.
    fn after_edit(&mut self, opts: Option<&OptionsIndex>) -> (fx: Vec<Effect>)
        requires
            old(self).wf(),
        ensures
            final(self).wf(),
            ({
                let a = *old(self);
                let b = *final(self);
                &&& unchanged_except(a, b, set![Field::Query, Field::Nav, Field::Lists])
                &&& b.query@ == a.query@
                &&& opt_view(b.pending_query) == Some(a.query@)
                &&& b.cursor == 0
                &&& b.scroll == 0
                &&& just(fx@, Effect::QueryEdited)
                &&& match (a.tab, opts) {
                    (Tab::NixosOptions, Some(o)) => {
                        &&& b.nixos_results@ == option_filter(nixos_names(o.doc.nixos_options@), nixos_descs(o.doc.nixos_options@), a.query@)
                        &&& b.hm_results@ == a.hm_results@
                    },
                    (Tab::HmOptions, Some(o)) => {
                        &&& b.hm_results@ == option_filter(hm_names(o.doc.hm_options@), hm_descs(o.doc.hm_options@), a.query@)
                        &&& b.nixos_results@ == a.nixos_results@
                    },
                    _ => b.nixos_results@ == a.nixos_results@ && b.hm_results@ == a.hm_results@,
                }
            }),
    {
        self.pending_query = Some(self.query.clone());
        self.cursor = 0;
        self.scroll = 0;
        if self.tab == Tab::NixosOptions || self.tab == Tab::HmOptions {
            self.filter_options(opts);
        }
        one(Effect::QueryEdited)
    }

    /// Push a keystroke into the query box.
    fn push_query(&mut self, c: char, opts: Option<&OptionsIndex>) -> (fx: Vec<Effect>)
        requires
            old(self).wf(),
        ensures
            final(self).wf(),
            edit_rel(*old(self), old(self).query@.push(c), opts, *final(self), fx@),
            final(self).dirty == old(self).dirty,
    {
        push_char(&mut self.query, c);
        self.after_edit(opts)
    }

    /// Remove the last character of the query.
    fn pop_query(&mut self, opts: Option<&OptionsIndex>) -> (fx: Vec<Effect>)
        requires
            old(self).wf(),
        ensures
            final(self).wf(),
            edit_rel(*old(self), popped(old(self).query@), opts, *final(self), fx@),
            final(self).dirty == old(self).dirty,
    {
        self.query = without_last(&self.query);
        self.after_edit(opts)
    }

    /// The homepage of the selected package, when it has one.
    pub fn open_homepage(&self, index: Option<&Index>) -> (r: Option<String>)
        ensures
            opt_view(r) == homepage_spec(*self, index),
    {
        match (index, self.selected_id()) {
            (Some(ix), Some(id)) => {
                if (id as usize) < ix.packages.len() && !ix.packages[id as usize].homepage.as_str().is_empty() {
                    Some(ix.packages[id as usize].homepage.clone())
                } else {
                    None
                }
            },
            _ => None,
        }
    }
}


impl AppCore {
    /// Carry out `cmd`; returns the work left to the surrounding program.
    pub fn apply(&mut self, cmd: Command, index: Option<&Index>, opts: Option<&OptionsIndex>) -> (fx: Vec<Effect>)
        requires
            old(self).wf(),
            index_ok(index),
        ensures
            final(self).wf(),
            apply_rel(*old(self), cmd, index, opts, *final(self), fx@),
    {
        match cmd {
            Command::Quit => {
                self.quit = true;
                Vec::new()
            },
            Command::ContinueCached => {
                self.phase = Phase::Loading { done: 0, total: 0 };
                self.dirty = true;
                one(Effect::LoadCached)
            },
            Command::Rebuild => self.rebuild(),
            Command::Escape => {
                let fx = if self.help_open {
                    self.help_open = false;
                    Vec::new()
                } else if !self.query.as_str().is_empty() {
                    self.query = String::new();
                    self.pending_query = Some(String::new());
                    one(Effect::QueryEdited)
                } else if self.tab != Tab::Overview {
                    self.switch_tab(Tab::Overview, index)
                } else {
                    Vec::new()
                };
                self.dirty = true;
                fx
            },
            Command::ToggleHelp => {
                self.help_open = !self.help_open;
                self.dirty = true;
                Vec::new()
            },
            Command::NextTheme => {
                self.theme_idx = (self.theme_idx + 1) % THEME_COUNT;
                self.dirty = true;
                Vec::new()
            },
            Command::PrevTheme => {
                self.theme_idx = (self.theme_idx + THEME_COUNT - 1) % THEME_COUNT;
                self.dirty = true;
                Vec::new()
            },
            Command::SwitchTab(t) => self.switch_tab(t, index),
            Command::CycleTab(back) => {
                let t = if back { self.tab.prev() } else { self.tab.next() };
                self.switch_tab(t, index)
            },
            Command::OpenHomepage => match self.open_homepage(index) {
                Some(url) => one(Effect::OpenUrl(url)),
                None => Vec::new(),
            },
            Command::GraphOrTop => {
                if self.tab == Tab::Graph {
                    let id = self.selected_id();
                    let depth = self.graph.depth;
                    self.regraph(index, id, depth)
                } else {
                    self.jump_top();
                    Vec::new()
                }
            },
            Command::Bottom => {
                if self.tab != Tab::Graph {
                    self.jump_bottom(index);
                }
                Vec::new()
            },
            Command::GraphDepth(d) => {
                if self.tab == Tab::Graph {
                    self.graph_depth_delta(d, index)
                } else {
                    Vec::new()
                }
            },
            Command::Step(d) => {
                if self.tab == Tab::Graph {
                    self.graph.select_delta(d);
                    self.dirty = true;
                } else {
                    self.move_cursor(d, index);
                }
                Vec::new()
            },
            Command::Collapse => {
                if self.tab == Tab::Graph {
                    self.graph.select_delta(-1);
                    self.dirty = true;
                } else if self.tab == Tab::Deps || self.tab == Tab::RevDeps {
                    if let Some(key) = self.cursor_key(index) {
                        self.collapse_row(key);
                    }
                }
                Vec::new()
            },
            Command::Expand => {
                if self.tab == Tab::Graph {
                    self.graph.select_delta(1);
                    self.dirty = true;
                } else if self.tab == Tab::Deps || self.tab == Tab::RevDeps {
                    if let Some(key) = self.cursor_key(index) {
                        self.toggle_row(key);
                    }
                }
                Vec::new()
            },
            Command::Follow => {
                if self.tab == Tab::Graph {
                    self.graph_follow(index)
                } else {
                    if self.tab == Tab::Deps || self.tab == Tab::RevDeps {
                        if let Some(key) = self.cursor_key(index) {
                            self.toggle_row(key);
                        }
                    }
                    Vec::new()
                }
            },
            Command::Page(down) => {
                self.page_cursor(10, down, index);
                Vec::new()
            },
            Command::Backspace => {
                let fx = self.pop_query(opts);
                self.dirty = true;
                fx
            },
            Command::ClearQuery => {
                self.query = String::new();
                self.pending_query = Some(String::new());
                self.cursor = 0;
                self.scroll = 0;
                self.dirty = true;
                one(Effect::QueryEdited)
            },
            Command::Type(c) => {
                let fx = self.push_query(c, opts);
                self.dirty = true;
                fx
            },
            Command::Nothing => Vec::new(),
        }
    }

    /// Handle one key press. Command characters act only while the query is
    /// empty, so typing stays free-form; arrows, Enter, Tab, PgUp/PgDn and
    /// Esc always work.
    pub fn on_key(&mut self, key: KeyPress, index: Option<&Index>, opts: Option<&OptionsIndex>) -> (fx: Vec<Effect>)
        requires
            old(self).wf(),
            index_ok(index),
        ensures
            final(self).wf(),
            apply_rel(
                *old(self),
                command_spec(key, old(self).phase is Startup, old(self).query@.len() == 0),
                index,
                opts,
                *final(self),
                fx@,
            ),
    {
        let startup = match self.phase {
            Phase::Startup { .. } => true,
            _ => false,
        };
        let idle = self.query.as_str().is_empty();
        let cmd = command_for(key, startup, idle);
        self.apply(cmd, index, opts)
    }
}


/// A cached index found at startup.
#[derive(Debug, Clone)]
pub struct CachedIndexInfo {
    /// When it was saved (UNIX epoch seconds; 0 when unknown).
    pub modified: u64,
    pub size_bytes: u64,
    pub commit: String,
}

/// The startup prompt for a cached index.
pub open spec fn startup_phase(c: CachedIndexInfo) -> Phase {
    Phase::Startup { timestamp: c.modified, size_bytes: c.size_bytes, commit: c.commit }
}

impl AppCore {
    /// The state of a new session. Without `force_rebuild`, a cached index
    /// (the database first, then the older cache file) opens the startup
    /// prompt; otherwise loading starts at once (the caller starts the
    /// loader when the phase is `Loading`).
    pub fn new(force_rebuild: bool, db: Option<CachedIndexInfo>, cache: Option<CachedIndexInfo>) -> (c: AppCore)
        ensures
            c.wf(),
            c.phase == (if !force_rebuild && db is Some {
                startup_phase(db.unwrap())
            } else if !force_rebuild && cache is Some {
                startup_phase(cache.unwrap())
            } else {
                Phase::Loading { done: 0, total: 0 }
            }),
            c.nixos_results@.len() == 0,
            c.hm_results@.len() == 0,
            c.query@.len() == 0,
            c.pending_query is None,
            c.results@.len() == 0,
            c.rendered_ticket == 0,
            c.cursor == 0,
            c.scroll == 0,
            c.tab == Tab::Overview,
            c.tree.expanded.view() == Set::<NodeKey>::empty(),
            c.rev.expanded.view() == Set::<NodeKey>::empty(),
            !c.rev.trans_open,
            c.graph.root == 0,
            c.graph.depth == DEFAULT_DEPTH,
            c.graph.nodes@.len() == 0,
            c.graph.selected == 0,
            c.graph.truncated == 0,
            !c.graph.laid_out,
            c.graph.edges@.len() == 0,
            c.theme_idx == 0,
            !c.help_open,
            c.dirty,
            c.tick == 0,
            c.size == (80u16, 24u16),
            !c.quit,
            c.graph_dirty,
    {
        let phase = if force_rebuild {
            Phase::Loading { done: 0, total: 0 }
        } else {
            match db {
                Some(d) => Phase::Startup { timestamp: d.modified, size_bytes: d.size_bytes, commit: d.commit },
                None => match cache {
                    Some(c) => Phase::Startup { timestamp: c.modified, size_bytes: c.size_bytes, commit: c.commit },
                    None => Phase::Loading { done: 0, total: 0 },
                },
            }
        };
        AppCore {
            nixos_results: Vec::new(),
            hm_results: Vec::new(),
            phase,
            query: String::new(),
            pending_query: None,
            results: Vec::new(),
            rendered_ticket: 0,
            cursor: 0,
            scroll: 0,
            tab: Tab::Overview,
            tree: TreeState::new(),
            rev: RevState::new(),
            graph: GraphView::default(),
            theme_idx: 0,
            help_open: false,
            dirty: true,
            tick: 0,
            size: (80, 24),
            quit: false,
            graph_dirty: true,
        }
    }

    /// Per-tick work: count the tick and, once the debounce has elapsed,
    /// hand out the pending query for dispatch.
    pub fn on_tick(&mut self, debounce_elapsed: bool) -> (r: Option<String>)
        requires
            old(self).wf(),
        ensures
            final(self).wf(),
            final(self).tick == old(self).tick.wrapping_add(1),
            debounce_elapsed ==> opt_view(r) == opt_view(old(self).pending_query) && final(self).pending_query is None,
            !debounce_elapsed ==> r is None && opt_view(final(self).pending_query) == opt_view(old(self).pending_query),
            final(self).query@ == old(self).query@,
            final(self).phase == old(self).phase,
            final(self).results@ == old(self).results@,
            final(self).cursor == old(self).cursor,
            final(self).scroll == old(self).scroll,
            final(self).dirty == old(self).dirty,
    {
        self.tick = self.tick.wrapping_add(1);
        if debounce_elapsed {
            self.pending_query.take()
        } else {
            None
        }
    }

    /// Adopt a newer search reply: its ticket and hits; the cursor returns
    /// to the top.
    pub fn adopt_reply(&mut self, ticket: u64, hits: Vec<u32>)
        requires
            old(self).wf(),
        ensures
            final(self).wf(),
            final(self).rendered_ticket == ticket,
            final(self).results@ == hits@,
            final(self).cursor == 0,
            final(self).scroll == 0,
            final(self).phase == old(self).phase,
            final(self).query@ == old(self).query@,
            final(self).tab == old(self).tab,
    {
        self.rendered_ticket = ticket;
        self.results = hits;
        self.cursor = 0;
        self.scroll = 0;
    }

    /// A progress report of the loader.
    pub fn on_progress(&mut self, done: u64, total: u64)
        requires
            old(self).wf(),
        ensures
            final(self).wf(),
            final(self).phase == (Phase::Loading { done, total }),
            final(self).query@ == old(self).query@,
            final(self).results@ == old(self).results@,
    {
        self.phase = Phase::Loading { done, total };
    }

    /// The load or build failed with `msg`.
    pub fn on_failed(&mut self, msg: String)
        requires
            old(self).wf(),
        ensures
            final(self).wf(),
            final(self).phase == (Phase::Failed { msg }),
            final(self).query@ == old(self).query@,
            final(self).results@ == old(self).results@,
    {
        self.phase = Phase::Failed { msg };
    }

    /// A new index is ready. `option_counts` holds the numbers of NixOS and
    /// Home-Manager options when the options loaded. The views reset, and
    /// the current query is returned for dispatch against the new index.
    pub fn on_ready(&mut self, fresh: bool, unkeyed: bool, option_counts: Option<(usize, usize)>) -> (q: String)
        requires
            old(self).wf(),
        ensures
            final(self).wf(),
            q@ == old(self).query@,
            final(self).query@ == old(self).query@,
            final(self).phase == (Phase::Ready { fresh, unkeyed }),
            match option_counts {
                Some((n, m)) => final(self).nixos_results@ == all_positions(n as nat) && final(self).hm_results@ == all_positions(m as nat),
                None => final(self).nixos_results@ == old(self).nixos_results@ && final(self).hm_results@ == old(self).hm_results@,
            },
            final(self).results@.len() == 0,
            final(self).rendered_ticket == 0,
            final(self).cursor == 0,
            final(self).scroll == 0,
            final(self).tree.expanded.view() == Set::<NodeKey>::empty(),
            final(self).rev.expanded.view() == Set::<NodeKey>::empty(),
            !final(self).rev.trans_open,
            final(self).graph.root == 0,
            final(self).graph.depth == DEFAULT_DEPTH,
            final(self).graph.nodes@.len() == 0,
            !final(self).graph.laid_out,
            final(self).graph_dirty,
            final(self).tab == old(self).tab,
    {
        if let Some((n, m)) = option_counts {
            self.nixos_results = positions(n);
            self.hm_results = positions(m);
        }
        self.phase = Phase::Ready { fresh, unkeyed };
        self.results = Vec::new();
        self.rendered_ticket = 0;
        self.cursor = 0;
        self.scroll = 0;
        self.tree.expanded.clear();
        self.rev.expanded.clear();
        self.rev.trans_open = false;
        self.graph = GraphView::default();
        self.graph_dirty = true;
        self.query.clone()
    }

    /// Keep the cursor on a row after the rows shrink.
    pub fn clamp_cursor(&mut self, index: Option<&Index>)
        requires
            old(self).wf(),
            index_ok(index),
        ensures
            final(self).wf(),
            unchanged_except(*old(self), *final(self), set![Field::Nav]),
            final(self).scroll == old(self).scroll,
            final(self).cursor == (if old(self).rows_spec(index) == 0 {
                0
            } else if old(self).cursor >= old(self).rows_spec(index) {
                old(self).rows_spec(index) - 1
            } else {
                old(self).cursor as int
            }),
    {
        let len = self.row_count(index);
        if len > 0 && self.cursor >= len {
            self.cursor = len - 1;
        }
        if len == 0 {
            self.cursor = 0;
        }
    }
}


/// Law: typing a character and then deleting it with Backspace gives the
/// query back, and that query is the one waiting for the debounce.
pub proof fn law_type_then_backspace(
    a: AppCore,
    c: char,
    index: Option<&Index>,
    opts: Option<&OptionsIndex>,
    b: AppCore,
    fx1: Seq<Effect>,
    d: AppCore,
    fx2: Seq<Effect>,
)
    requires
        apply_rel(a, Command::Type(c), index, opts, b, fx1),
        apply_rel(b, Command::Backspace, index, opts, d, fx2),
    ensures
        d.query@ == a.query@,
        opt_view(d.pending_query) == Some(a.query@),
        d.cursor == 0,
{
    assert(a.query@.push(c).drop_last() == a.query@);
}

/// Law: `Esc` with the help open only closes it.
pub proof fn law_escape_closes_help(a: AppCore, index: Option<&Index>, opts: Option<&OptionsIndex>, b: AppCore, fx: Seq<Effect>)
    requires
        a.help_open,
        apply_rel(a, Command::Escape, index, opts, b, fx),
    ensures
        !b.help_open,
        b.query@ == a.query@,
        b.tab == a.tab,
        fx.len() == 0,
{
}


/// Law: the command characters (`d r v 1-6 g G j k h l + = - q o t`) act only
/// while the search box is empty; with text in it they are typed.
pub proof fn law_command_chars_need_idle(c: char, startup: bool)
    requires
        c == 'd' || c == 'r' || c == 'v' || c == '1' || c == '2' || c == '3' || c == '4' || c == '5'
            || c == '6' || c == 'g' || c == 'G' || c == 'j' || c == 'k' || c == 'h' || c == 'l'
            || c == '+' || c == '=' || c == '-' || c == 'q' || c == 'o' || c == 't',
        !(startup && (c == 'r' || c == 'q')),
    ensures
        command_spec(KeyPress { code: Key::Char(c), ctrl: false, shift: false }, startup, false) == Command::Type(c),
{
}

/// Law: Ctrl-C quits in every phase, whatever the query.
pub proof fn law_ctrl_c_quits(startup: bool, idle: bool, shift: bool)
    ensures
        command_spec(KeyPress { code: Key::Char('c'), ctrl: true, shift }, startup, idle) == Command::Quit,
{
}

/// Law: with an empty search box `t` steps the theme forward, and `T`
/// steps it back in any case; at the prompt and otherwise alike.
pub proof fn law_theme_keys(startup: bool, idle: bool)
    ensures
        command_spec(KeyPress { code: Key::Char('t'), ctrl: false, shift: false }, startup, true) == Command::NextTheme,
        command_spec(KeyPress { code: Key::Char('T'), ctrl: false, shift: true }, startup, idle) == Command::PrevTheme,
{
}

/// Law (vi keys mirror the arrows): with an empty search box, `k` moves
/// up like the Up arrow (one row back), `j` down like Down (one row on),
/// `h` collapses like Left and `l` expands like Right, at the startup
/// prompt and otherwise alike.
pub proof fn law_vi_keys_mirror_arrows(startup: bool)
    ensures
        command_spec(KeyPress { code: Key::Char('k'), ctrl: false, shift: false }, startup, true)
            == command_spec(KeyPress { code: Key::Up, ctrl: false, shift: false }, startup, true),
        command_spec(KeyPress { code: Key::Char('j'), ctrl: false, shift: false }, startup, true)
            == command_spec(KeyPress { code: Key::Down, ctrl: false, shift: false }, startup, true),
        command_spec(KeyPress { code: Key::Char('h'), ctrl: false, shift: false }, startup, true)
            == command_spec(KeyPress { code: Key::Left, ctrl: false, shift: false }, startup, true),
        command_spec(KeyPress { code: Key::Char('l'), ctrl: false, shift: false }, startup, true)
            == command_spec(KeyPress { code: Key::Right, ctrl: false, shift: false }, startup, true),
        command_spec(KeyPress { code: Key::Up, ctrl: false, shift: false }, startup, true) == Command::Step(-1i32),
        command_spec(KeyPress { code: Key::Down, ctrl: false, shift: false }, startup, true) == Command::Step(1i32),
{
}

/// Law: arrows, Enter, Tab, PgUp/PgDn and Esc work whether or not the
/// search box is empty.
pub proof fn law_navigation_keys_always_work(k: KeyPress, startup: bool)
    requires
        !(k.code is Char),
    ensures
        command_spec(k, startup, true) == command_spec(k, startup, false),
        command_spec(k, startup, false) != Command::Nothing || k.code == Key::Other,
{
}

} // verus!
