use vstd::prelude::*;

verus! {

/// Names a tab. A collection of tabs gives each tab it takes a new one.
pub type TabId = usize;

/// What a terminal is by value.
pub struct TerminalView {
    pub title: Seq<char>,
    pub rows: usize,
    pub cols: usize,
    pub scrollback: usize,
    pub dirty: bool,
}

/// What the window needs to know of the terminal of a tab: its title, its
/// size in cells, how many lines it keeps, and whether any of its lines
/// changed since it was last painted.
#[derive(Debug)]
pub struct TerminalState {
    title: String,
    rows: usize,
    cols: usize,
    scrollback: usize,
    dirty: bool,
}

impl View for TerminalState {
    type V = TerminalView;

    closed spec fn view(&self) -> TerminalView {
        TerminalView {
            title: self.title@,
            rows: self.rows,
            cols: self.cols,
            scrollback: self.scrollback,
            dirty: self.dirty,
        }
    }
}

impl TerminalState {
    /// A terminal of the given size that keeps `scrollback` lines. It has no
    /// title yet, and all of it is still to be painted.
    pub fn new(rows: usize, cols: usize, scrollback: usize) -> (t: TerminalState)
        ensures
            t@ == (TerminalView { title: Seq::empty(), rows, cols, scrollback, dirty: true }),
    {
        TerminalState { title: String::new(), rows, cols, scrollback, dirty: true }
    }

    /// The title that the terminal asks for.
    pub fn get_title(&self) -> (title: &str)
        ensures
            title@ == self@.title,
    {
        self.title.as_str()
    }

    /// Takes a new title.
    pub fn set_title(&mut self, title: &str)
        ensures
            final(self)@ == (TerminalView { title: title@, ..old(self)@ }),
    {
        self.title = title.to_owned();
    }

    /// Rows of cells.
    pub fn rows(&self) -> (rows: usize)
        ensures
            rows == self@.rows,
    {
        self.rows
    }

    /// Columns of cells.
    pub fn cols(&self) -> (cols: usize)
        ensures
            cols == self@.cols,
    {
        self.cols
    }

    /// Lines kept above the screen.
    pub fn scrollback(&self) -> (lines: usize)
        ensures
            lines == self@.scrollback,
    {
        self.scrollback
    }

    /// Whether any line changed since the terminal was last painted.
    pub fn has_dirty_lines(&self) -> (dirty: bool)
        ensures
            dirty == self@.dirty,
    {
        self.dirty
    }

    /// Asks for every line to be painted again.
    pub fn make_all_lines_dirty(&mut self)
        ensures
            final(self)@ == (TerminalView { dirty: true, ..old(self)@ }),
    {
        self.dirty = true;
    }

    /// Records that every line is painted.
    pub fn clean_dirty_lines(&mut self)
        ensures
            final(self)@ == (TerminalView { dirty: false, ..old(self)@ }),
    {
        self.dirty = false;
    }

    /// Takes a new size in cells.
    pub fn resize(&mut self, rows: usize, cols: usize)
        ensures
            final(self)@ == (TerminalView { rows, cols, ..old(self)@ }),
    {
        self.rows = rows;
        self.cols = cols;
    }
}

/// What a tab is by value.
pub struct TabView {
    pub tab_id: TabId,
    pub terminal: TerminalView,
}

/// One session of the window: a terminal under an identifier.
#[derive(Debug)]
pub struct Tab {
    tab_id: TabId,
    terminal: TerminalState,
}

impl View for Tab {
    type V = TabView;

    closed spec fn view(&self) -> TabView {
        TabView { tab_id: self.tab_id, terminal: self.terminal@ }
    }
}

impl Tab {
    /// The identifier of the tab.
    pub fn tab_id(&self) -> (id: TabId)
        ensures
            id == self@.tab_id,
    {
        self.tab_id
    }

    /// The terminal of the tab.
    pub fn terminal(&self) -> (t: &TerminalState)
        ensures
            t@ == self@.terminal,
    {
        &self.terminal
    }
}

/// What a collection of tabs is by value: the tabs in their order, and the
/// position of the active one.
pub struct TabsView {
    pub tabs: Seq<TabView>,
    pub active: int,
}

impl TabsView {
    /// Whether a tab has the identifier.
    pub open spec fn has(self, id: TabId) -> bool {
        exists|i: int| 0 <= i < self.tabs.len() && (#[trigger] self.tabs[i]).tab_id == id
    }

    /// The position of the tab with the identifier, where there is one.
    pub open spec fn position(self, id: TabId) -> int {
        choose|i: int| 0 <= i < self.tabs.len() && (#[trigger] self.tabs[i]).tab_id == id
    }

    /// The identifiers of the tabs, in their order.
    pub open spec fn ids(self) -> Seq<TabId> {
        self.tabs.map_values(|t: TabView| t.tab_id)
    }

    /// The position that stays active when `count` tabs are left: the one
    /// that was, or the last where that one is gone.
    pub open spec fn clamped(active: int, count: int) -> int {
        if count == 0 {
            0
        } else if active >= count {
            count - 1
        } else {
            active
        }
    }

    /// The collection with another tab active.
    pub open spec fn activated(self, index: int) -> TabsView {
        TabsView { active: index, ..self }
    }

    /// The collection with one more tab at its end.
    pub open spec fn pushed(self, tab: TabView) -> TabsView {
        TabsView { tabs: self.tabs.push(tab), ..self }
    }

    /// The collection without the tab of the given identifier.
    pub open spec fn without(self, id: TabId) -> TabsView {
        if self.has(id) {
            TabsView {
                tabs: self.tabs.remove(self.position(id)),
                active: Self::clamped(self.active, self.tabs.len() - 1),
            }
        } else {
            self
        }
    }

    /// The collection with the terminal of the tab at `index` replaced.
    pub open spec fn with_terminal(self, index: int, terminal: TerminalView) -> TabsView {
        TabsView {
            tabs: self.tabs.update(index, TabView { terminal, ..self.tabs[index] }),
            ..self
        }
    }

    /// The collection with every line of the active terminal to be painted
    /// again; an empty collection stays as it is.
    pub open spec fn with_active_dirty(self) -> TabsView {
        if self.tabs.len() == 0 {
            self
        } else {
            self.with_terminal(
                self.active,
                TerminalView { dirty: true, ..self.tabs[self.active].terminal },
            )
        }
    }

    /// The collection after the tab of the given identifier ended: the tab
    /// is gone, and the tab that is active then is to be painted again.
    pub open spec fn terminated(self, id: TabId) -> TabsView {
        self.without(id).with_active_dirty()
    }

    /// The collection after the tabs of the given identifiers ended, one
    /// after the other.
    pub open spec fn reaped(self, dead: Seq<TabId>) -> TabsView
        decreases dead.len(),
    {
        if dead.len() == 0 {
            self
        } else {
            self.reaped(dead.drop_last()).terminated(dead.last())
        }
    }

    /// The identifiers, in the order of the tabs, of those among the first
    /// `count` tabs of which `polls` says at their position that their
    /// program has ended.
    pub open spec fn ended(self, polls: Seq<bool>, count: int) -> Seq<TabId>
        decreases count,
    {
        if count <= 0 {
            Seq::empty()
        } else if polls[count - 1] {
            self.ended(polls, count - 1).push(self.tabs[count - 1].tab_id)
        } else {
            self.ended(polls, count - 1)
        }
    }

    /// The collection with every terminal of its first `count` tabs at the
    /// given size.
    pub open spec fn resized(self, count: int, rows: usize, cols: usize) -> TabsView {
        TabsView {
            tabs: Seq::new(
                self.tabs.len(),
                |i: int|
                    if i < count {
                        TabView {
                            terminal: TerminalView { rows, cols, ..self.tabs[i].terminal },
                            ..self.tabs[i]
                        }
                    } else {
                        self.tabs[i]
                    },
            ),
            ..self
        }
    }

    /// No two tabs share an identifier, and a tab is active wherever there
    /// is a tab.
    pub open spec fn well_formed(self) -> bool {
        &&& 0 <= self.active
        &&& self.tabs.len() > 0 ==> self.active < self.tabs.len()
        &&& self.tabs.len() == 0 ==> self.active == 0
        &&& forall|i: int, j: int|
            0 <= i < j < self.tabs.len() ==> (#[trigger] self.tabs[i]).tab_id != (
            #[trigger] self.tabs[j]).tab_id
    }
}

/// The tabs of a window in their order, one of them active.
#[derive(Debug)]
pub struct Tabs {
    tabs: Vec<Tab>,
    active: usize,
    next_id: TabId,
}

impl View for Tabs {
    type V = TabsView;

    closed spec fn view(&self) -> TabsView {
        TabsView { tabs: self.tabs@.map_values(|t: Tab| t@), active: self.active as int }
    }
}

impl Tabs {
    /// The identifier that the next tab gets.
    pub closed spec fn spec_next_id(&self) -> TabId {
        self.next_id
    }

    /// The collection is consistent, and every identifier that it gave out
    /// is below the next one.
    pub open spec fn well_formed(&self) -> bool {
        &&& self@.well_formed()
        &&& forall|i: int|
            0 <= i < self@.tabs.len() ==> (#[trigger] self@.tabs[i]).tab_id < self.spec_next_id()
    }

    /// A collection without tabs.
    pub fn new() -> (tabs: Tabs)
        ensures
            tabs.well_formed(),
            tabs@ == (TabsView { tabs: Seq::empty(), active: 0 }),
            tabs.spec_next_id() == 0,
    {
        let tabs = Tabs { tabs: Vec::new(), active: 0, next_id: 0 };
        assert(tabs@.tabs =~= Seq::empty());
        tabs
    }

    /// Number of tabs.
    pub fn len(&self) -> (n: usize)
        ensures
            n == self@.tabs.len(),
    {
        self.tabs.len()
    }

    /// Whether there is no tab.
    pub fn is_empty(&self) -> (empty: bool)
        ensures
            empty == (self@.tabs.len() == 0),
    {
        self.tabs.len() == 0
    }

    /// Position of the active tab.
    pub fn get_active_idx(&self) -> (index: usize)
        ensures
            index == self@.active,
    {
        self.active
    }

    /// The tab at a position.
    pub fn get(&self, index: usize) -> (tab: &Tab)
        requires
            index < self@.tabs.len(),
        ensures
            tab@ == self@.tabs[index as int],
    {
        &self.tabs[index]
    }

    /// The active tab, where there is a tab.
    pub fn get_active(&self) -> (tab: Option<&Tab>)
        requires
            self.well_formed(),
        ensures
            self@.tabs.len() == 0 ==> tab is None,
            self@.tabs.len() > 0 ==> (tab matches Some(t) && t@ == self@.tabs[self@.active]),
    {
        if self.tabs.len() == 0 {
            None
        } else {
            Some(&self.tabs[self.active])
        }
    }

    /// Makes the tab at a position the active one.
    pub fn set_active(&mut self, index: usize)
        requires
            old(self).well_formed(),
            index < old(self)@.tabs.len(),
        ensures
            final(self).well_formed(),
            final(self)@ == old(self)@.activated(index as int),
            final(self).spec_next_id() == old(self).spec_next_id(),
    {
        self.active = index;
    }

    /// The identifier that the next tab gets, or nothing when the
    /// identifiers are used up.
    pub fn next_tab_id(&self) -> (id: Option<TabId>)
        ensures
            id == if self.spec_next_id() < usize::MAX {
                Some(self.spec_next_id())
            } else {
                None::<TabId>
            },
    {
        if self.next_id < usize::MAX {
            Some(self.next_id)
        } else {
            None
        }
    }

    /// Takes a terminal as a new tab at the end, under an identifier that no
    /// tab of this collection ever had, and hands out the identifier.
    pub fn push(&mut self, terminal: TerminalState) -> (id: TabId)
        requires
            old(self).well_formed(),
            old(self).spec_next_id() < usize::MAX,
        ensures
            final(self).well_formed(),
            id == old(self).spec_next_id(),
            final(self).spec_next_id() == id + 1,
            final(self)@ == old(self)@.pushed(TabView { tab_id: id, terminal: terminal@ }),
    {
        let id = self.next_id;
        let ghost before = self.tabs@;
        self.tabs.push(Tab { tab_id: id, terminal });
        self.next_id = id + 1;
        proof {
            assert(self@.tabs =~= old(self)@.tabs.push(
                TabView { tab_id: id, terminal: terminal@ },
            ));
        }
        id
    }

    /// Position of the tab with the identifier, or nothing where no tab has
    /// it.
    pub fn index_for_id(&self, id: TabId) -> (index: Option<usize>)
        requires
            self.well_formed(),
        ensures
            index is Some <==> self@.has(id),
            index matches Some(i) ==> (i == self@.position(id) && i < self@.tabs.len()
                && self@.tabs[i as int].tab_id == id),
    {
        let mut i: usize = 0;
        while i < self.tabs.len()
            invariant
                i <= self.tabs@.len(),
                self.well_formed(),
                forall|j: int| 0 <= j < i ==> (#[trigger] self@.tabs[j]).tab_id != id,
            decreases self.tabs@.len() - i,
        {
            if self.tabs[i].tab_id == id {
                assert(self@.tabs[i as int].tab_id == id);
                return Some(i);
            }
            i = i + 1;
        }
        None
    }

    /// Removes the tab with the identifier, where there is one. The active
    /// position stays, or moves to the last tab where it was beyond.
    pub fn remove_by_id(&mut self, id: TabId)
        requires
            old(self).well_formed(),
        ensures
            final(self).well_formed(),
            final(self)@ == old(self)@.without(id),
            final(self).spec_next_id() == old(self).spec_next_id(),
    {
        let index = match self.index_for_id(id) {
            Some(index) => index,
            None => {
                return ;
            },
        };
        let _removed = self.tabs.remove(index);
        let count = self.tabs.len();
        if count == 0 {
            self.active = 0;
        } else if self.active >= count {
            self.active = count - 1;
        }
        proof {
            assert(self@.tabs =~= old(self)@.tabs.remove(index as int));
        }
    }

    /// The terminal of the active tab, to read and to change.
    pub fn active_terminal_mut(&mut self) -> (terminal: &mut TerminalState)
        requires
            old(self).well_formed(),
            old(self)@.tabs.len() > 0,
        ensures
            terminal@ == old(self)@.tabs[old(self)@.active].terminal,
            final(self)@.active == old(self)@.active,
            final(self)@.tabs =~= old(self)@.with_terminal(
                old(self)@.active,
                final(terminal)@,
            ).tabs,
            final(self).spec_next_id() == old(self).spec_next_id(),
    {
        let active = self.active;
        &mut self.tabs[active].terminal
    }

    /// Gives the terminal of the tab at a position a new size in cells.
    pub fn resize_terminal(&mut self, index: usize, rows: usize, cols: usize)
        requires
            old(self).well_formed(),
            index < old(self)@.tabs.len(),
        ensures
            final(self).well_formed(),
            final(self)@ == old(self)@.with_terminal(
                index as int,
                TerminalView { rows, cols, ..old(self)@.tabs[index as int].terminal },
            ),
            final(self).spec_next_id() == old(self).spec_next_id(),
    {
        self.tabs[index].terminal.resize(rows, cols);
        proof {
            assert(self@.tabs =~= old(self)@.with_terminal(
                index as int,
                TerminalView { rows, cols, ..old(self)@.tabs[index as int].terminal },
            ).tabs);
        }
    }

    /// Asks for every line of the active terminal to be painted again.
    pub fn make_active_dirty(&mut self)
        requires
            old(self).well_formed(),
        ensures
            final(self).well_formed(),
            final(self)@ == old(self)@.with_active_dirty(),
            final(self).spec_next_id() == old(self).spec_next_id(),
    {
        if self.tabs.len() > 0 {
            let active = self.active;
            self.tabs[active].terminal.make_all_lines_dirty();
            proof {
                assert(self@.tabs =~= old(self)@.with_active_dirty().tabs);
            }
        }
    }
}

/// The identifier that the next tab gets is one that no tab has: an
/// identifier is given out once.
pub proof fn lemma_next_id_is_new(tabs: Tabs)
    requires
        tabs.well_formed(),
    ensures
        !tabs@.has(tabs.spec_next_id()),
{
}

/// Among the first `count` tabs, the identifiers that `ended` lists are
/// those of exactly the tabs of which the polls say that their program has
/// ended; each listed identifier is that of a tab.
pub proof fn lemma_ended(tabs: TabsView, polls: Seq<bool>, count: int)
    requires
        tabs.well_formed(),
        0 <= count <= tabs.tabs.len(),
        count <= polls.len(),
    ensures
        forall|i: int|
            0 <= i < count ==> (tabs.ended(polls, count).contains(
                (#[trigger] tabs.tabs[i]).tab_id,
            ) <==> polls[i]),
        forall|i: int|
            count <= i < tabs.tabs.len() ==> !tabs.ended(polls, count).contains(
                (#[trigger] tabs.tabs[i]).tab_id,
            ),
        forall|k: int|
            0 <= k < tabs.ended(polls, count).len() ==> tabs.has(
                #[trigger] tabs.ended(polls, count)[k],
            ),
    decreases count,
{
    if count > 0 {
        lemma_ended(tabs, polls, count - 1);
        let before = tabs.ended(polls, count - 1);
        let now = tabs.ended(polls, count);
        let last = tabs.tabs[count - 1].tab_id;
        assert forall|i: int| 0 <= i < tabs.tabs.len() implies (now.contains(
            (#[trigger] tabs.tabs[i]).tab_id,
        ) <==> (before.contains(tabs.tabs[i].tab_id) || (polls[count - 1] && i == count - 1))) by {
            let id = tabs.tabs[i].tab_id;
            if polls[count - 1] {
                assert(now == before.push(last));
                if before.contains(id) {
                    let k = choose|k: int| 0 <= k < before.len() && before[k] == id;
                    assert(now[k] == id);
                }
                if i == count - 1 {
                    assert(now[now.len() - 1] == id);
                }
                if now.contains(id) {
                    let k = choose|k: int| 0 <= k < now.len() && now[k] == id;
                    if k < before.len() {
                        assert(before[k] == id);
                    } else {
                        assert(id == last);
                    }
                }
            }
        }
        assert forall|k: int| 0 <= k < now.len() implies tabs.has(#[trigger] now[k]) by {
            if k < before.len() {
                assert(now[k] == before[k]);
            } else {
                assert(now[k] == last);
                assert(tabs.tabs[count - 1].tab_id == last);
            }
        }
    }
}

/// Which tabs among the first `count` are listed as ended depends on the
/// polls at the first `count` positions only.
pub proof fn lemma_ended_prefix(tabs: TabsView, polls: Seq<bool>, more: Seq<bool>, count: int)
    requires
        0 <= count <= polls.len(),
        count <= more.len(),
        forall|i: int| 0 <= i < count ==> polls[i] == #[trigger] more[i],
    ensures
        tabs.ended(polls, count) == tabs.ended(more, count),
    decreases count,
{
    if count > 0 {
        lemma_ended_prefix(tabs, polls, more, count - 1);
        assert(polls[count - 1] == more[count - 1]);
    }
}

/// When a tab ends, that tab and no other leaves the tabs, and the tabs
/// stay consistent.
pub proof fn lemma_terminated(tabs: TabsView, id: TabId)
    requires
        tabs.well_formed(),
    ensures
        tabs.terminated(id).well_formed(),
        !tabs.terminated(id).has(id),
        forall|other: TabId|
            other != id ==> (#[trigger] tabs.terminated(id).has(other) <==> tabs.has(other)),
        tabs.terminated(id).tabs.len() == if tabs.has(id) {
            tabs.tabs.len() - 1
        } else {
            tabs.tabs.len() as int
        },
{
    lemma_removed(tabs, id);
    assert forall|other: TabId| other != id implies (#[trigger] tabs.terminated(id).has(other)
        <==> tabs.has(other)) by {
        lemma_removed_keeps(tabs, id, other);
    }
}

/// The tab that ended is gone, and the tabs are consistent.
proof fn lemma_removed(tabs: TabsView, id: TabId)
    requires
        tabs.well_formed(),
    ensures
        tabs.terminated(id).well_formed(),
        !tabs.terminated(id).has(id),
        tabs.terminated(id).tabs.len() == if tabs.has(id) {
            tabs.tabs.len() - 1
        } else {
            tabs.tabs.len() as int
        },
{
    let without = tabs.without(id);
    let after = tabs.terminated(id);
    if tabs.has(id) {
        // Every tab that is left was there before, at its place or one
        // further on.
        let at = tabs.position(id);
        assert forall|i: int| 0 <= i < without.tabs.len() implies (#[trigger] without.tabs[i]).tab_id
            != id && without.tabs[i] == tabs.tabs[if i < at {
            i
        } else {
            i + 1
        }] by {}
    }
    assert forall|i: int| 0 <= i < after.tabs.len() implies (#[trigger] after.tabs[i]).tab_id
        == without.tabs[i].tab_id by {}
}

/// A tab other than the one that ended stays.
proof fn lemma_removed_keeps(tabs: TabsView, id: TabId, other: TabId)
    requires
        tabs.well_formed(),
        other != id,
    ensures
        tabs.terminated(id).has(other) <==> tabs.has(other),
{
    let without = tabs.without(id);
    let after = tabs.terminated(id);
    assert forall|i: int| 0 <= i < after.tabs.len() implies (#[trigger] after.tabs[i]).tab_id
        == without.tabs[i].tab_id by {}
    if tabs.has(other) {
        let i = choose|i: int| 0 <= i < tabs.tabs.len() && (#[trigger] tabs.tabs[i]).tab_id == other;
        let j = if tabs.has(id) && i > tabs.position(id) {
            i - 1
        } else {
            i
        };
        assert(after.tabs[j].tab_id == other);
    }
}

/// After the tabs of the given identifiers ended, exactly the tabs with
/// these identifiers are gone: none of them is left, and every other tab is
/// still there. The tabs stay consistent, so where any tab is left one of
/// them is active.
pub proof fn lemma_reaped(tabs: TabsView, dead: Seq<TabId>)
    requires
        tabs.well_formed(),
    ensures
        tabs.reaped(dead).well_formed(),
        forall|id: TabId| dead.contains(id) ==> !(#[trigger] tabs.reaped(dead).has(id)),
        forall|id: TabId| !dead.contains(id) ==> (#[trigger] tabs.reaped(dead).has(id) <==> tabs.has(id)),
    decreases dead.len(),
{
    if dead.len() > 0 {
        let front = dead.drop_last();
        let last = dead.last();
        lemma_reaped(tabs, front);
        lemma_terminated(tabs.reaped(front), last);
        assert forall|id: TabId| dead.contains(id) implies !(#[trigger] tabs.reaped(dead).has(
            id,
        )) by {
            if id != last {
                let i = choose|i: int| 0 <= i < dead.len() && dead[i] == id;
                assert(front[i] == id);
            }
        }
    }
}

} // verus!
