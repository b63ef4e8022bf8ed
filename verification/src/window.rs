use crate::tabs::lemma_ended;
use crate::tabs::lemma_ended_prefix;
use crate::tabs::TabId;
use crate::tabs::TabView;
use crate::tabs::Tabs;
use crate::tabs::TabsView;
use crate::tabs::TerminalState;
use crate::tabs::TerminalView;
use vstd::arithmetic::div_mod::lemma_fundamental_div_mod;
use vstd::arithmetic::div_mod::lemma_fundamental_div_mod_converse;
use vstd::prelude::*;
use vstd::string::StringExecFns;

verus! {

/// Lines that a new terminal keeps above the screen where the configuration
/// names no number.
pub const DEFAULT_SCROLLBACK: usize = 3500;

/// How often one paint may replace the atlas before it gives up.
pub const MAX_ATLAS_REBUILDS: usize = 16;

/// Size of the window in pixels together with the size of one character
/// cell in pixels.
#[derive(Clone, Copy, Debug, PartialEq, Eq, Structural)]
pub struct Dimensions {
    pub width: u16,
    pub height: u16,
    pub cell_height: usize,
    pub cell_width: usize,
}

/// Something went wrong outside the library; the message says what.
#[derive(Debug)]
pub struct HostError {
    pub message: String,
}

/// Why a frame could not be rendered.
#[derive(Debug)]
pub enum RenderError {
    /// The atlas has no room left; one of side `size` has.
    OutOfTextureSpace { size: u32 },
    /// Anything else.
    Other(HostError),
}

/// What to do once a frame was rendered and presented.
#[derive(Debug)]
pub enum PaintStep {
    /// The frame is on screen.
    Done,
    /// The paint has failed.
    Failed(RenderError),
    /// Replace the atlas by one of side `size`, and paint again.
    Recover { size: u32 },
}

/// Cells of `cell` pixels that fit `pixels` pixels, where a cell that lacks
/// one pixel counts as a cell.
pub open spec fn cells(pixels: u16, cell: usize) -> int {
    (pixels + 1) / (cell as int)
}

/// A count of cells as a pseudo-terminal takes it: in sixteen bits, the
/// largest count that these hold where the cells are more.
pub open spec fn pty_cells(pixels: u16, cell: usize) -> int {
    if cells(pixels, cell) > 0xffff {
        0xffff
    } else {
        cells(pixels, cell)
    }
}

/// Cells of `cell` pixels that fit `pixels` pixels, where a cell that lacks
/// one pixel counts as a cell.
pub fn cell_count(pixels: u16, cell: usize) -> (n: usize)
    requires
        cell > 0,
    ensures
        n == cells(pixels, cell),
        n <= 0x10000,
{
    let n = (pixels as usize + 1) / cell;
    assert(n <= 0x10000) by (nonlinear_arith)
        requires
            n == (pixels + 1) / (cell as int),
            pixels + 1 <= 0x10000,
            cell > 0,
    ;
    n
}

/// A count of cells as a pseudo-terminal takes it, in its own type.
pub open spec fn pty_size(pixels: u16, cell: usize) -> u16 {
    pty_cells(pixels, cell) as u16
}

/// A count of cells in the sixteen bits of a pseudo-terminal: the one count
/// that does not fit, 65536, comes out as 65535.
pub fn pty_cell_count(pixels: u16, cell: usize) -> (n: u16)
    requires
        cell > 0,
    ensures
        n == pty_cells(pixels, cell),
        n == pty_size(pixels, cell),
{
    let n = cell_count(pixels, cell);
    if n >= 0x10000 {
        0xffff
    } else {
        n as u16
    }
}

/// Lines that a new terminal keeps above the screen: the configured number,
/// or 3500 where none is configured.
pub open spec fn scrollback_of(configured: Option<usize>) -> usize {
    match configured {
        Some(n) => n,
        None => DEFAULT_SCROLLBACK,
    }
}

/// Lines that a new terminal keeps above the screen: the configured number,
/// or 3500 where none is configured.
pub fn scrollback_limit(configured: Option<usize>) -> (lines: usize)
    ensures
        lines == scrollback_of(configured),
{
    match configured {
        Some(n) => n,
        None => DEFAULT_SCROLLBACK,
    }
}

/// The position `delta` tabs after `active` among `count` tabs, going round
/// at both ends.
pub open spec fn relative_index(active: int, delta: int, count: int) -> int {
    (active + delta) % count
}

/// The position `delta` tabs after `active` among `count` tabs, going round
/// at both ends.
pub fn tab_relative(active: usize, delta: isize, count: usize) -> (index: usize)
    requires
        active < count,
    ensures
        index == relative_index(active as int, delta as int, count as int),
        index < count,
{
    // Steps forward that come to the same tab as `delta` steps.
    let forward: usize = if delta >= 0 {
        (delta as usize) % count
    } else {
        let back: usize = if delta == isize::MIN {
            (isize::MAX as usize) + 1
        } else {
            (-delta) as usize
        };
        let rest = back % count;
        if rest == 0 {
            0
        } else {
            count - rest
        }
    };
    proof {
        let c = count as int;
        let d = delta as int;
        let f = forward as int;
        // `delta` and `forward` differ by `turns` whole rounds.
        let turns: int = if delta >= 0 {
            d / c
        } else if (-d) % c == 0 {
            -((-d) / c)
        } else {
            -((-d) / c) - 1
        };
        if delta >= 0 {
            lemma_fundamental_div_mod(d, c);
        } else {
            lemma_fundamental_div_mod(-d, c);
        }
        assert(d - f == turns * c) by (nonlinear_arith)
            requires
                c > 0,
                delta >= 0 ==> d == c * (d / c) + d % c && f == d % c && turns == d / c,
                delta < 0 ==> -d == c * ((-d) / c) + (-d) % c,
                delta < 0 && (-d) % c == 0 ==> f == 0 && turns == -((-d) / c),
                delta < 0 && (-d) % c != 0 ==> f == c - (-d) % c && turns == -((-d) / c) - 1,
        ;
        let wrap: int = if active as int + f >= c {
            1
        } else {
            0
        };
        let target = active as int + f - wrap * c;
        assert(active as int + d == (turns + wrap) * c + target) by (nonlinear_arith)
            requires
                d - f == turns * c,
                target == active as int + f - wrap * c,
        ;
        lemma_fundamental_div_mod_converse(active as int + d, c, turns + wrap, target);
    }
    if active >= count - forward {
        active - (count - forward)
    } else {
        active + forward
    }
}

/// What to do after a frame was rendered with the given outcome, when the
/// atlas may still be replaced `rebuilds_left` times.
///
/// Only a lack of room in the atlas is mended, by an atlas of the side that
/// the failure names; every other failure is handed on as it came.
pub fn after_render(outcome: Result<(), RenderError>, rebuilds_left: usize) -> (step: PaintStep)
    ensures
        match outcome {
            Ok(()) => step is Done,
            Err(RenderError::OutOfTextureSpace { size }) => if rebuilds_left > 0 {
                step == (PaintStep::Recover { size })
            } else {
                step == PaintStep::Failed(RenderError::OutOfTextureSpace { size })
            },
            Err(RenderError::Other(e)) => step == PaintStep::Failed(RenderError::Other(e)),
        },
{
    match outcome {
        Ok(()) => PaintStep::Done,
        Err(RenderError::OutOfTextureSpace { size }) => {
            if rebuilds_left > 0 {
                PaintStep::Recover { size }
            } else {
                PaintStep::Failed(RenderError::OutOfTextureSpace { size })
            }
        },
        Err(RenderError::Other(e)) => PaintStep::Failed(RenderError::Other(e)),
    }
}

/// The character of a decimal digit.
pub open spec fn digit(d: int) -> char {
    if d == 0 {
        '0'
    } else if d == 1 {
        '1'
    } else if d == 2 {
        '2'
    } else if d == 3 {
        '3'
    } else if d == 4 {
        '4'
    } else if d == 5 {
        '5'
    } else if d == 6 {
        '6'
    } else if d == 7 {
        '7'
    } else if d == 8 {
        '8'
    } else {
        '9'
    }
}

/// A number written in decimal digits, without leading zeros.
pub open spec fn decimal(n: nat) -> Seq<char>
    decreases n,
{
    if n < 10 {
        seq![digit(n as int)]
    } else {
        decimal(n / 10).push(digit((n % 10) as int))
    }
}

/// The title of a window with several tabs: the number of the active tab,
/// counted from one, and the number of tabs, in square brackets, then a space
/// and the title of the active tab.
pub open spec fn numbered_title(index: nat, count: nat, title: Seq<char>) -> Seq<char> {
    seq!['['] + decimal(index + 1) + seq!['/'] + decimal(count) + seq![']', ' '] + title
}

/// The title that a window with the given tabs shows: none without tabs,
/// that of its tab where it has one, and a numbered title where it has
/// more.
pub open spec fn window_title(tabs: TabsView) -> Option<Seq<char>> {
    if tabs.tabs.len() == 0 {
        None
    } else if tabs.tabs.len() == 1 {
        Some(tabs.tabs[tabs.active].terminal.title)
    } else {
        Some(
            numbered_title(
                tabs.active as nat,
                tabs.tabs.len(),
                tabs.tabs[tabs.active].terminal.title,
            ),
        )
    }
}

/// The text of one decimal digit.
fn digit_text(d: usize) -> (text: &'static str)
    requires
        d < 10,
    ensures
        text@ == seq![digit(d as int)],
{
    proof {
        reveal_strlit("0");
        reveal_strlit("1");
        reveal_strlit("2");
        reveal_strlit("3");
        reveal_strlit("4");
        reveal_strlit("5");
        reveal_strlit("6");
        reveal_strlit("7");
        reveal_strlit("8");
        reveal_strlit("9");
    }
    let text = if d == 0 {
        "0"
    } else if d == 1 {
        "1"
    } else if d == 2 {
        "2"
    } else if d == 3 {
        "3"
    } else if d == 4 {
        "4"
    } else if d == 5 {
        "5"
    } else if d == 6 {
        "6"
    } else if d == 7 {
        "7"
    } else if d == 8 {
        "8"
    } else {
        "9"
    };
    text
}

/// Writes a number in decimal digits at the end of a text.
fn append_decimal(text: &mut String, n: usize)
    ensures
        final(text)@ == old(text)@ + decimal(n as nat),
    decreases n,
{
    if n >= 10 {
        append_decimal(text, n / 10);
    }
    text.append(digit_text(n % 10));
    proof {
        if n >= 10 {
            assert(final(text)@ =~= old(text)@ + decimal((n / 10) as nat).push(
                digit((n % 10) as int),
            ));
        }
    }
}

/// The title of a window with `count` tabs of which the one at `index`,
/// titled `title`, is active.
pub fn format_title(index: usize, count: usize, title: &str) -> (text: String)
    requires
        index < usize::MAX,
    ensures
        text@ == numbered_title(index as nat, count as nat, title@),
{
    proof {
        reveal_strlit("[");
        reveal_strlit("/");
        reveal_strlit("] ");
    }
    let mut text = String::new();
    text.append("[");
    append_decimal(&mut text, index + 1);
    text.append("/");
    append_decimal(&mut text, count);
    text.append("] ");
    text.append(title);
    text
}

/// The title that the window shows for its tabs, or nothing where it has
/// no tab.
pub fn title_for(tabs: &Tabs) -> (title: Option<String>)
    requires
        tabs.well_formed(),
    ensures
        match title {
            Some(text) => window_title(tabs@) == Some(text@),
            None => window_title(tabs@) is None,
        },
{
    let count = tabs.len();
    let tab = match tabs.get_active() {
        Some(tab) => tab,
        None => {
            return None;
        },
    };
    let title = tab.terminal().get_title();
    if count == 1 {
        Some(title.to_owned())
    } else {
        Some(format_title(tabs.get_active_idx(), count, title))
    }
}

/// The terminal that a new tab starts with.
pub open spec fn fresh_terminal(rows: usize, cols: usize, scrollback: usize) -> TerminalView {
    TerminalView { title: Seq::empty(), rows, cols, scrollback, dirty: true }
}

/// The tabs after a tab of the given kind was added and made active.
pub open spec fn with_new_tab(tabs: TabsView, id: TabId, terminal: TerminalView) -> TabsView {
    tabs.pushed(TabView { tab_id: id, terminal }).activated(tabs.tabs.len() as int)
}

/// Whether `after` is `before` with a new tab of the given identifier and
/// size added and made active.
pub open spec fn spawned(
    before: TabsView,
    after: TabsView,
    id: TabId,
    rows: usize,
    cols: usize,
) -> bool {
    exists|scrollback: usize|
        after == #[trigger] with_new_tab(before, id, fresh_terminal(rows, cols, scrollback))
}

/// How opening a tab for a window of the size `dims` leads from the tabs
/// `before` to the tabs `after`, with the result `r`.
///
/// The new tab has the next identifier and a new terminal of the rows and
/// columns that fit the window, and it is the active one. A failure either
/// left the tabs alone or came when the tab was already there. A window
/// whose cells have no width or no height gets no tab.
pub open spec fn tab_spawned(
    dims: Dimensions,
    before: Tabs,
    r: Result<TabId, HostError>,
    after: Tabs,
) -> bool {
    let id = before.spec_next_id();
    let added = spawned(
        before@,
        after@,
        id,
        cells(dims.height, dims.cell_height) as usize,
        cells(dims.width, dims.cell_width) as usize,
    ) && after.spec_next_id() == id + 1;
    if dims.cell_height == 0 || dims.cell_width == 0 {
        r is Err && after == before
    } else {
        match r {
            Ok(tab_id) => tab_id == id && added,
            Err(_) => after == before || added,
        }
    }
}

/// How taking the size `width` by `height` for a window of the size `dims`
/// leads from the tabs `before` to the tabs `after`, with the result `r`.
///
/// The size of the window itself changes nothing and gives `false`. Any
/// other size gives `true` with every terminal at the rows and columns that
/// fit it, or a failure with the first tabs at that size and the others as
/// they were. A window whose cells have no width or no height takes no
/// other size.
pub open spec fn surfaces_resized(
    dims: Dimensions,
    width: u16,
    height: u16,
    before: TabsView,
    r: Result<bool, HostError>,
    after: TabsView,
) -> bool {
    let rows = cells(height, dims.cell_height) as usize;
    let cols = cells(width, dims.cell_width) as usize;
    if width == dims.width && height == dims.height {
        r == Ok::<bool, HostError>(false) && after == before
    } else if dims.cell_height == 0 || dims.cell_width == 0 {
        r is Err && after == before
    } else {
        match r {
            Ok(resized) => resized && after == before.resized(before.tabs.len() as int, rows, cols),
            Err(_) => exists|count: int|
                0 <= count <= before.tabs.len() && after == #[trigger] before.resized(
                    count,
                    rows,
                    cols,
                ),
        }
    }
}

/// A window of terminals in tabs. What a window does outside the library
/// (its title, its frames, its processes) is for the implementor to supply;
/// how the tabs are led is given here.
pub trait TerminalWindow: Sized {
    /// What a frame is rendered into.
    type Frame;

    /// The size of the window and of its cells.
    fn get_dimensions(&self) -> Dimensions;

    /// Shows a title on the window.
    fn set_window_title(&mut self, title: &str) -> Result<(), HostError>;

    /// Starts a frame to render into.
    fn frame(&self) -> Self::Frame;

    /// Renders a terminal into a frame.
    fn render(&mut self, target: &mut Self::Frame, terminal: &mut TerminalState) -> Result<
        (),
        RenderError,
    >;

    /// Presents a frame. A frame that cannot be presented is beyond repair.
    fn finish_frame(&mut self, target: Self::Frame);

    /// Replaces the atlas by an empty one of the given side, and forgets
    /// every glyph and image remembered with the old one.
    fn recreate_texture_atlas(&mut self, size: u32) -> Result<(), HostError>;

    /// Tells the renderer that the size of a pixel has changed.
    fn advise_renderer_that_scaling_has_changed(&mut self) -> Result<(), HostError>;

    /// Tells the renderer the new size of the window in pixels.
    fn advise_renderer_of_resize(&mut self, width: u16, height: u16) -> Result<(), HostError>;

    /// Tells the host that a tab exists now.
    fn tab_was_created(&mut self, tab_id: TabId) -> Result<(), HostError>;

    /// Tells the host that a tab is gone.
    fn deregister_tab(&mut self, tab_id: TabId) -> Result<(), HostError>;

    /// Lines that the configuration wants a terminal to keep above the
    /// screen, where it names a number.
    fn scrollback_lines(&self) -> Option<usize>;

    /// Opens a pseudo-terminal of the given size in cells and pixels for the
    /// tab that is to get `tab_id`, and starts the configured program on it.
    fn open_session(
        &mut self,
        tab_id: TabId,
        rows: u16,
        cols: u16,
        width: u16,
        height: u16,
    ) -> Result<(), HostError>;

    /// Gives the pseudo-terminal of a tab a new size in cells and pixels.
    fn resize_pty(&mut self, tab_id: TabId, rows: u16, cols: u16, width: u16, height: u16) -> Result<
        (),
        HostError,
    >;

    /// Whether the program of a tab has ended, without waiting for it. A
    /// program that cannot be asked counts as ended.
    fn child_has_exited(&mut self, tab_id: TabId) -> bool;

    /// Makes the tab at `tab_idx` the active one and shows its title; a
    /// position beyond the tabs changes nothing.
    fn activate_tab(&mut self, tabs: &mut Tabs, tab_idx: usize) -> (r: Result<(), HostError>)
        requires
            old(tabs).well_formed(),
        ensures
            r is Ok,
            final(tabs).well_formed(),
            final(tabs).spec_next_id() == old(tabs).spec_next_id(),
            final(tabs)@ == if tab_idx < old(tabs)@.tabs.len() {
                old(tabs)@.activated(tab_idx as int)
            } else {
                old(tabs)@
            },
            if tab_idx < old(tabs)@.tabs.len() {
                exists|host: &mut Self, text: &str, shown: Result<(), HostError>|
                    *host == *old(self) && *final(host) == *final(self) && window_title(
                        final(tabs)@,
                    ) == Some(text@) && #[trigger] call_ensures(
                        Self::set_window_title,
                        (host, text),
                        shown,
                    )
            } else {
                *final(self) == *old(self)
            },
    {
        let max = tabs.len();
        if tab_idx < max {
            tabs.set_active(tab_idx);
            self.update_title(tabs);
        }
        Ok(())
    }

    /// Makes the tab `delta` positions after the active one the active one,
    /// going round at both ends, and asks the window to show its title.
    fn activate_tab_relative(&mut self, tabs: &mut Tabs, delta: isize) -> (r: Result<(), HostError>)
        requires
            old(tabs).well_formed(),
            old(tabs)@.tabs.len() > 0,
        ensures
            r is Ok,
            final(tabs).well_formed(),
            final(tabs).spec_next_id() == old(tabs).spec_next_id(),
            final(tabs)@ == old(tabs)@.activated(
                relative_index(old(tabs)@.active, delta as int, old(tabs)@.tabs.len() as int),
            ),
            exists|host: &mut Self, text: &str, shown: Result<(), HostError>|
                *host == *old(self) && *final(host) == *final(self) && window_title(final(tabs)@)
                    == Some(text@) && #[trigger] call_ensures(
                    Self::set_window_title,
                    (host, text),
                    shown,
                ),
    {
        let max = tabs.len();
        let active = tabs.get_active_idx();
        let tab = tab_relative(active, delta, max);
        self.activate_tab(tabs, tab)
    }

    /// Shows the title that belongs to the tabs: the window is asked once to
    /// show exactly that title. Without tabs the window is left alone. That
    /// the host cannot show the title is no failure.
    fn update_title(&mut self, tabs: &Tabs)
        requires
            tabs.well_formed(),
        ensures
            match window_title(tabs@) {
                None => *final(self) == *old(self),
                Some(title) => exists|host: &mut Self, text: &str, shown: Result<(), HostError>|
                    *host == *old(self) && *final(host) == *final(self) && text@ == title
                        && #[trigger] call_ensures(Self::set_window_title, (host, text), shown),
            },
    {
        match title_for(tabs) {
            Some(title) => {
                let _ = self.set_window_title(title.as_str());
            },
            None => {},
        }
    }

    /// Paints where a tab is active and any of its lines has changed: the
    /// result and every change are then those of `paint`. Otherwise succeeds
    /// and changes nothing.
    fn paint_if_needed(&mut self, tabs: &mut Tabs) -> (r: Result<(), RenderError>)
        requires
            old(tabs).well_formed(),
        ensures
            final(tabs).well_formed(),
            final(tabs).spec_next_id() == old(tabs).spec_next_id(),
            old(tabs)@.tabs.len() == 0 || !old(tabs)@.tabs[old(tabs)@.active].terminal.dirty ==> {
                &&& r is Ok
                &&& final(tabs)@ == old(tabs)@
                &&& *final(self) == *old(self)
            },
            final(tabs)@ == old(tabs)@ || exists|terminal: TerminalView|
                final(tabs)@ == #[trigger] old(tabs)@.with_terminal(old(tabs)@.active, terminal),
            old(tabs)@.tabs.len() > 0 && old(tabs)@.tabs[old(tabs)@.active].terminal.dirty
                ==> exists|host: &mut Self, painted: &mut Tabs|
                *host == *old(self) && *final(host) == *final(self) && *painted == *old(tabs)
                    && *final(painted) == *final(tabs) && #[trigger] call_ensures(
                    Self::paint,
                    (host, painted),
                    r,
                ),
    {
        let dirty = match tabs.get_active() {
            Some(tab) => tab.terminal().has_dirty_lines(),
            None => {
                return Ok(());
            },
        };
        if dirty {
            self.paint(tabs)
        } else {
            Ok(())
        }
    }

    /// Paints the active terminal, and mends a full atlas: takes one step
    /// after the other as `paint_step` does, each with one replacement of the
    /// atlas less to spend, `MAX_ATLAS_REBUILDS` at first, until a step ends
    /// the paint. The result of that step is the result.
    ///
    /// Of the tabs only the active terminal can have changed.
    fn paint(&mut self, tabs: &mut Tabs) -> (r: Result<(), RenderError>)
        requires
            old(tabs).well_formed(),
            old(tabs)@.tabs.len() > 0,
        ensures
            final(tabs).well_formed(),
            final(tabs).spec_next_id() == old(tabs).spec_next_id(),
            exists|terminal: TerminalView|
                final(tabs)@ == #[trigger] old(tabs)@.with_terminal(old(tabs)@.active, terminal),
            exists|hosts: Seq<Self>, views: Seq<Tabs>, steps: Seq<Option<Result<(), RenderError>>>|
                {
                    &&& 1 <= #[trigger] steps.len() <= MAX_ATLAS_REBUILDS + 1
                    &&& #[trigger] hosts.len() == steps.len() + 1
                    &&& #[trigger] views.len() == steps.len() + 1
                    &&& hosts[0] == *old(self)
                    &&& views[0] == *old(tabs)
                    &&& hosts[steps.len() as int] == *final(self)
                    &&& views[steps.len() as int] == *final(tabs)
                    &&& steps[steps.len() - 1] == Some(r)
                    &&& forall|i: int|
                        0 <= i < steps.len() ==> {
                            &&& (#[trigger] steps[i]) is None || i == steps.len() - 1
                            &&& exists|painting: &mut Self, painted: &mut Tabs|
                                {
                                    &&& *painting == hosts[i]
                                    &&& *final(painting) == hosts[i + 1]
                                    &&& *painted == views[i]
                                    &&& *final(painted) == views[i + 1]
                                    &&& #[trigger] call_ensures(
                                        Self::paint_step,
                                        (painting, painted, (MAX_ATLAS_REBUILDS - i) as usize),
                                        steps[i],
                                    )
                                }
                        }
                },
    {
        let mut rebuilds_left: usize = MAX_ATLAS_REBUILDS;
        let ghost mut hosts: Seq<Self> = seq![*self];
        let ghost mut views: Seq<Tabs> = seq![*tabs];
        let ghost mut steps: Seq<Option<Result<(), RenderError>>> = Seq::empty();
        proof {
            let same = tabs@.tabs[tabs@.active].terminal;
            assert(tabs@.tabs =~= tabs@.with_terminal(tabs@.active, same).tabs);
        }
        loop
            invariant
                old(tabs).well_formed(),
                old(tabs)@.tabs.len() > 0,
                tabs.well_formed(),
                tabs@.tabs.len() > 0,
                tabs.spec_next_id() == old(tabs).spec_next_id(),
                exists|terminal: TerminalView|
                    tabs@ == #[trigger] old(tabs)@.with_terminal(old(tabs)@.active, terminal),
                rebuilds_left <= MAX_ATLAS_REBUILDS,
                steps.len() == MAX_ATLAS_REBUILDS - rebuilds_left,
                hosts.len() == steps.len() + 1,
                views.len() == steps.len() + 1,
                hosts[0] == *old(self),
                views[0] == *old(tabs),
                hosts[steps.len() as int] == *self,
                views[steps.len() as int] == *tabs,
                forall|j: int|
                    0 <= j < steps.len() ==> {
                        &&& (#[trigger] steps[j]) is None
                        &&& exists|painting: &mut Self, painted: &mut Tabs|
                            {
                                &&& *painting == hosts[j]
                                &&& *final(painting) == hosts[j + 1]
                                &&& *painted == views[j]
                                &&& *final(painted) == views[j + 1]
                                &&& #[trigger] call_ensures(
                                    Self::paint_step,
                                    (painting, painted, (MAX_ATLAS_REBUILDS - j) as usize),
                                    steps[j],
                                )
                            }
                    },
            decreases rebuilds_left,
        {
            let ghost before = tabs@;
            let ghost seen = hosts;
            let ghost shown = views;
            let ghost taken = steps;
            let ghost at = steps.len() as int;
            let step = self.paint_step(tabs, rebuilds_left);
            proof {
                lemma_one_terminal_changed(old(tabs)@, before, tabs@);
                hosts = seen.push(*self);
                views = shown.push(*tabs);
                steps = taken.push(step);
                assert(hosts.len() == steps.len() + 1);
                assert(views.len() == steps.len() + 1);
                assert(hosts[0] == seen[0]);
                assert(views[0] == shown[0]);
                assert(hosts[at] == seen[at]);
                assert(views[at] == shown[at]);
                assert(hosts[at + 1] == *self);
                assert(views[at + 1] == *tabs);
                assert(steps[at] == step);
                assert(rebuilds_left == (MAX_ATLAS_REBUILDS - at) as usize);
                assert forall|j: int| 0 <= j < steps.len() implies {
                    &&& (#[trigger] steps[j]) is None || j == steps.len() - 1
                    &&& exists|painting: &mut Self, painted: &mut Tabs|
                        {
                            &&& *painting == hosts[j]
                            &&& *final(painting) == hosts[j + 1]
                            &&& *painted == views[j]
                            &&& *final(painted) == views[j + 1]
                            &&& #[trigger] call_ensures(
                                Self::paint_step,
                                (painting, painted, (MAX_ATLAS_REBUILDS - j) as usize),
                                steps[j],
                            )
                        }
                } by {
                    if j < at {
                        assert(taken[j] is None);
                        assert(hosts[j] == seen[j]);
                        assert(hosts[j + 1] == seen[j + 1]);
                        assert(views[j] == shown[j]);
                        assert(views[j + 1] == shown[j + 1]);
                        assert(steps[j] == taken[j]);
                    } else {
                        assert(hosts[j] == hosts[at]);
                        assert(hosts[j + 1] == hosts[at + 1]);
                        assert(views[j] == views[at]);
                        assert(views[j + 1] == views[at + 1]);
                        assert(steps[j] == steps[at]);
                    }
                }
            }
            match step {
                Some(result) => {
                    return result;
                },
                None => {
                    rebuilds_left = rebuilds_left - 1;
                },
            }
        }
    }

    /// Renders the active terminal into a new frame and presents the frame,
    /// whether rendering failed or not; the outcome of rendering is the
    /// result. The frame is presented before the outcome is looked at: a
    /// frame left open would take the context with it.
    fn paint_once(&mut self, tabs: &mut Tabs) -> (r: Result<(), RenderError>)
        requires
            old(tabs).well_formed(),
            old(tabs)@.tabs.len() > 0,
        ensures
            final(tabs).well_formed(),
            final(tabs).spec_next_id() == old(tabs).spec_next_id(),
            exists|
                started: Self::Frame,
                rendering: &mut Self,
                target: &mut Self::Frame,
                terminal: &mut TerminalState,
                presenting: &mut Self,
            |
                {
                    &&& #[trigger] call_ensures(Self::frame, (&*old(self),), started)
                    &&& *rendering == *old(self)
                    &&& *target == started
                    &&& terminal@ == old(tabs)@.tabs[old(tabs)@.active].terminal
                    &&& #[trigger] call_ensures(Self::render, (rendering, target, terminal), r)
                    &&& final(tabs)@ == old(tabs)@.with_terminal(
                        old(tabs)@.active,
                        final(terminal)@,
                    )
                    &&& *presenting == *final(rendering)
                    &&& *final(presenting) == *final(self)
                    &&& #[trigger] call_ensures(
                        Self::finish_frame,
                        (presenting, *final(target)),
                        (),
                    )
                },
    {
        let mut target = self.frame();
        let outcome = self.render(&mut target, tabs.active_terminal_mut());
        self.finish_frame(target);
        outcome
    }

    /// Paints once, and mends a full atlas where `rebuilds_left` allows it.
    ///
    /// A paint that succeeds ends the paint with success, and one that fails
    /// for anything but a full atlas ends it with that failure. Where the
    /// atlas was full and may not be replaced any more, that failure ends the
    /// paint. Where it may, the host is asked to replace it by one of the
    /// side that the failure names: where it cannot, its error ends the
    /// paint; where it can, every line of the active terminal is to be
    /// painted again, and the paint goes on.
    fn paint_step(&mut self, tabs: &mut Tabs, rebuilds_left: usize) -> (r: Option<
        Result<(), RenderError>,
    >)
        requires
            old(tabs).well_formed(),
            old(tabs)@.tabs.len() > 0,
        ensures
            final(tabs).well_formed(),
            final(tabs)@.tabs.len() > 0,
            final(tabs).spec_next_id() == old(tabs).spec_next_id(),
            exists|terminal: TerminalView|
                final(tabs)@ == #[trigger] old(tabs)@.with_terminal(old(tabs)@.active, terminal),
            r is None ==> rebuilds_left > 0,
            exists|painting: &mut Self, painted: &mut Tabs, outcome: Result<(), RenderError>|
                {
                    &&& *painting == *old(self)
                    &&& *painted == *old(tabs)
                    &&& #[trigger] call_ensures(Self::paint_once, (painting, painted), outcome)
                    &&& match outcome {
                        Ok(()) => {
                            &&& r == Some(Ok::<(), RenderError>(()))
                            &&& *final(self) == *final(painting)
                            &&& *final(tabs) == *final(painted)
                        },
                        Err(RenderError::Other(e)) => {
                            &&& r == Some(Err::<(), RenderError>(RenderError::Other(e)))
                            &&& *final(self) == *final(painting)
                            &&& *final(tabs) == *final(painted)
                        },
                        Err(RenderError::OutOfTextureSpace { size }) => if rebuilds_left == 0 {
                            &&& r == Some(
                                Err::<(), RenderError>(RenderError::OutOfTextureSpace { size }),
                            )
                            &&& *final(self) == *final(painting)
                            &&& *final(tabs) == *final(painted)
                        } else {
                            exists|rebuilding: &mut Self, rebuilt: Result<(), HostError>|
                                {
                                    &&& *rebuilding == *final(painting)
                                    &&& *final(rebuilding) == *final(self)
                                    &&& #[trigger] call_ensures(
                                        Self::recreate_texture_atlas,
                                        (rebuilding, size),
                                        rebuilt,
                                    )
                                    &&& match rebuilt {
                                        Err(e) => {
                                            &&& r == Some(
                                                Err::<(), RenderError>(RenderError::Other(e)),
                                            )
                                            &&& *final(tabs) == *final(painted)
                                        },
                                        Ok(()) => {
                                            &&& r is None
                                            &&& final(tabs)@ == final(painted)@.with_active_dirty()
                                        },
                                    }
                                }
                        },
                    }
                },
    {
        let ghost before = tabs@;
        let outcome = self.paint_once(tabs);
        let ghost rendered = tabs@;
        match after_render(outcome, rebuilds_left) {
            PaintStep::Done => Some(Ok(())),
            PaintStep::Failed(e) => Some(Err(e)),
            PaintStep::Recover { size } => {
                match self.recreate_texture_atlas(size) {
                    Ok(()) => {},
                    Err(e) => {
                        return Some(Err(RenderError::Other(e)));
                    },
                }
                tabs.make_active_dirty();
                proof {
                    lemma_one_terminal_changed(old(tabs)@, rendered, tabs@);
                }
                None
            },
        }
    }

    /// Opens a new tab of the size of the window and makes it the active
    /// one: asks the window for its size, and does what `spawn_tab_within`
    /// does for a window of that size. A window whose cells have no width or
    /// no height gets no tab, and nothing is touched.
    fn spawn_tab(&mut self, tabs: &mut Tabs) -> (r: Result<TabId, HostError>)
        requires
            old(tabs).well_formed(),
        ensures
            final(tabs).well_formed(),
            exists|dims: Dimensions| #[trigger] tab_spawned(dims, *old(tabs), r, *final(tabs)),
            exists|dims: Dimensions|
                #[trigger] call_ensures(Self::get_dimensions, (&*old(self),), dims) && if dims.cell_height
                    == 0 || dims.cell_width == 0 {
                    &&& r matches Err(e) && e.message@ == "a cell of the window has no size"@
                    &&& *final(tabs) == *old(tabs)
                    &&& *final(self) == *old(self)
                } else {
                    exists|host: &mut Self, inner: &mut Tabs|
                        *host == *old(self) && *final(host) == *final(self) && *inner == *old(tabs)
                            && *final(inner) == *final(tabs) && #[trigger] call_ensures(
                            Self::spawn_tab_within,
                            (host, inner, dims),
                            r,
                        )
                },
    {
        let dims = self.get_dimensions();
        if dims.cell_height == 0 || dims.cell_width == 0 {
            let r = Err(HostError { message: "a cell of the window has no size".to_owned() });
            assert(tab_spawned(dims, *old(tabs), r, *tabs));
            return r;
        }
        self.spawn_tab_within(tabs, dims)
    }

    /// Opens a new tab for a window of the given size and makes it the
    /// active one.
    ///
    /// Where no identifier is left, fails and touches nothing. Else the host
    /// is asked to open a session under the next identifier, of the rows and
    /// columns that fit the window as a pseudo-terminal counts them. Where it
    /// cannot, its error is the result and no tab is added. Where it can, the
    /// tab gets a terminal of the rows and columns that fit the window, which
    /// keeps the lines that the host has configured or 3500, and is made the
    /// active one; the host is asked to show the title and is told of the
    /// tab. The result is the identifier, or the error of the host that does
    /// not take the tab, which is there all the same.
    fn spawn_tab_within(&mut self, tabs: &mut Tabs, dims: Dimensions) -> (r: Result<
        TabId,
        HostError,
    >)
        requires
            old(tabs).well_formed(),
            dims.cell_height > 0,
            dims.cell_width > 0,
        ensures
            final(tabs).well_formed(),
            tab_spawned(dims, *old(tabs), r, *final(tabs)),
            (old(tabs).spec_next_id() == usize::MAX ==> {
                &&& r matches Err(e) && e.message@ == "no identifier is left for a tab"@
                &&& *final(tabs) == *old(tabs)
                &&& *final(self) == *old(self)
            }),
            (old(tabs).spec_next_id() < usize::MAX ==> exists|
                opening: &mut Self,
                opened: Result<(), HostError>,
            |
                {
                    &&& *opening == *old(self)
                    &&& #[trigger] call_ensures(
                        Self::open_session,
                        (
                            opening,
                            old(tabs).spec_next_id(),
                            pty_size(dims.height, dims.cell_height),
                            pty_size(dims.width, dims.cell_width),
                            dims.width,
                            dims.height,
                        ),
                        opened,
                    )
                    &&& match opened {
                        Err(e) => {
                            &&& r == Err::<TabId, HostError>(e)
                            &&& *final(tabs) == *old(tabs)
                            &&& *final(self) == *final(opening)
                        },
                        Ok(()) => exists|
                            configured: Option<usize>,
                            titled: &mut Self,
                            text: &str,
                            shown: Result<(), HostError>,
                            telling: &mut Self,
                            created: Result<(), HostError>,
                        |
                            {
                                &&& #[trigger] call_ensures(
                                    Self::scrollback_lines,
                                    (&*final(opening),),
                                    configured,
                                )
                                &&& final(tabs)@ == with_new_tab(
                                    old(tabs)@,
                                    old(tabs).spec_next_id(),
                                    fresh_terminal(
                                        cells(dims.height, dims.cell_height) as usize,
                                        cells(dims.width, dims.cell_width) as usize,
                                        scrollback_of(configured),
                                    ),
                                )
                                &&& *titled == *final(opening)
                                &&& window_title(final(tabs)@) == Some(text@)
                                &&& #[trigger] call_ensures(
                                    Self::set_window_title,
                                    (titled, text),
                                    shown,
                                )
                                &&& *telling == *final(titled)
                                &&& *final(telling) == *final(self)
                                &&& #[trigger] call_ensures(
                                    Self::tab_was_created,
                                    (telling, old(tabs).spec_next_id()),
                                    created,
                                )
                                &&& r == match created {
                                    Ok(()) => Ok::<TabId, HostError>(old(tabs).spec_next_id()),
                                    Err(e) => Err::<TabId, HostError>(e),
                                }
                            },
                    }
                }),
    {
        let rows = cell_count(dims.height, dims.cell_height);
        let cols = cell_count(dims.width, dims.cell_width);
        let tab_id = match tabs.next_tab_id() {
            Some(id) => id,
            None => {
                return Err(HostError { message: "no identifier is left for a tab".to_owned() });
            },
        };
        let pty_rows = pty_cell_count(dims.height, dims.cell_height);
        let pty_cols = pty_cell_count(dims.width, dims.cell_width);
        let opened = self.open_session(tab_id, pty_rows, pty_cols, dims.width, dims.height);
        match opened {
            Ok(()) => {},
            Err(e) => {
                return Err(e);
            },
        }
        let scrollback = scrollback_limit(self.scrollback_lines());
        let terminal = TerminalState::new(rows, cols, scrollback);
        let _ = tabs.push(terminal);
        let len = tabs.len();
        let _ = self.activate_tab(tabs, len - 1);
        assert(tabs@ == with_new_tab(
            old(tabs)@,
            tab_id,
            fresh_terminal(rows, cols, scrollback),
        ));
        match self.tab_was_created(tab_id) {
            Ok(()) => Ok(tab_id),
            Err(e) => Err(e),
        }
    }

    /// Takes a new size of the window in pixels: asks the window for the size
    /// it has. That size changes nothing and gives `false`. For any other
    /// size it does what `resize_surfaces_within` does for a window of the
    /// size it has; a window whose cells have no width or no height fails
    /// and touches nothing.
    fn resize_surfaces(&mut self, tabs: &mut Tabs, width: u16, height: u16) -> (r: Result<
        bool,
        HostError,
    >)
        requires
            old(tabs).well_formed(),
        ensures
            final(tabs).well_formed(),
            final(tabs).spec_next_id() == old(tabs).spec_next_id(),
            exists|dims: Dimensions|
                {
                    &&& #[trigger] surfaces_resized(dims, width, height, old(tabs)@, r, final(tabs)@)
                    &&& width == dims.width && height == dims.height ==> *final(tabs) == *old(tabs)
                        && *final(self) == *old(self)
                },
            exists|dims: Dimensions|
                #[trigger] call_ensures(Self::get_dimensions, (&*old(self),), dims) && if width
                    == dims.width && height == dims.height {
                    &&& r == Ok::<bool, HostError>(false)
                    &&& *final(tabs) == *old(tabs)
                    &&& *final(self) == *old(self)
                } else if dims.cell_height == 0 || dims.cell_width == 0 {
                    &&& r matches Err(e) && e.message@ == "a cell of the window has no size"@
                    &&& *final(tabs) == *old(tabs)
                    &&& *final(self) == *old(self)
                } else {
                    exists|host: &mut Self, inner: &mut Tabs|
                        *host == *old(self) && *final(host) == *final(self) && *inner == *old(tabs)
                            && *final(inner) == *final(tabs) && #[trigger] call_ensures(
                            Self::resize_surfaces_within,
                            (host, inner, dims, width, height),
                            r,
                        )
                },
    {
        let dims = self.get_dimensions();
        let r = if width == dims.width && height == dims.height {
            Ok(false)
        } else if dims.cell_height == 0 || dims.cell_width == 0 {
            Err(HostError { message: "a cell of the window has no size".to_owned() })
        } else {
            self.resize_surfaces_within(tabs, dims, width, height)
        };
        assert(surfaces_resized(dims, width, height, old(tabs)@, r, tabs@));
        r
    }

    /// Takes a new size in pixels for a window of the size `dims`. The size
    /// that the window has already changes nothing and gives `false`.
    ///
    /// Any other size is told to the renderer; where that fails, its error
    /// is the result and nothing else happens. Then tab after tab, in their
    /// order, the host is asked to give the pseudo-terminal of the tab the
    /// rows and columns that fit the size, as a pseudo-terminal counts them,
    /// and the terminal of the tab takes the rows and columns that fit.
    /// Where the host fails at a tab, its error is the result; the tabs
    /// before have their new size, that tab and the tabs after it their old
    /// one. Where it fails at none, the result is `true`.
    fn resize_surfaces_within(
        &mut self,
        tabs: &mut Tabs,
        dims: Dimensions,
        width: u16,
        height: u16,
    ) -> (r: Result<bool, HostError>)
        requires
            old(tabs).well_formed(),
            dims.cell_height > 0,
            dims.cell_width > 0,
        ensures
            final(tabs).well_formed(),
            final(tabs).spec_next_id() == old(tabs).spec_next_id(),
            surfaces_resized(dims, width, height, old(tabs)@, r, final(tabs)@),
            width == dims.width && height == dims.height ==> *final(tabs) == *old(tabs)
                && *final(self) == *old(self),
            (width != dims.width || height != dims.height ==> exists|
                advising: &mut Self,
                advised: Result<(), HostError>,
            |
                {
                    &&& *advising == *old(self)
                    &&& #[trigger] call_ensures(
                        Self::advise_renderer_of_resize,
                        (advising, width, height),
                        advised,
                    )
                    &&& match advised {
                        Err(e) => {
                            &&& r == Err::<bool, HostError>(e)
                            &&& *final(tabs) == *old(tabs)
                            &&& *final(self) == *final(advising)
                        },
                        Ok(()) => exists|hosts: Seq<Self>, answers: Seq<Result<(), HostError>>|
                            {
                                &&& #[trigger] hosts.len() == #[trigger] answers.len() + 1
                                &&& answers.len() <= old(tabs)@.tabs.len()
                                &&& hosts[0] == *final(advising)
                                &&& hosts[answers.len() as int] == *final(self)
                                &&& forall|i: int|
                                    0 <= i < answers.len() ==> {
                                        &&& (#[trigger] answers[i]) is Ok || (i == answers.len() - 1
                                            && r is Err)
                                        &&& exists|asking: &mut Self|
                                            {
                                                &&& *asking == hosts[i]
                                                &&& *final(asking) == hosts[i + 1]
                                                &&& #[trigger] call_ensures(
                                                    Self::resize_pty,
                                                    (
                                                        asking,
                                                        old(tabs)@.tabs[i].tab_id,
                                                        pty_size(height, dims.cell_height),
                                                        pty_size(width, dims.cell_width),
                                                        width,
                                                        height,
                                                    ),
                                                    answers[i],
                                                )
                                            }
                                    }
                                &&& match r {
                                    Ok(_) => answers.len() == old(tabs)@.tabs.len(),
                                    Err(e) => {
                                        &&& answers.len() > 0
                                        &&& answers[answers.len() - 1] == Err::<(), HostError>(e)
                                        &&& final(tabs)@ == old(tabs)@.resized(
                                            answers.len() - 1,
                                            cells(height, dims.cell_height) as usize,
                                            cells(width, dims.cell_width) as usize,
                                        )
                                    },
                                }
                            },
                    }
                }),
    {
        if width != dims.width || height != dims.height {
            let ghost rows_wanted = cells(height, dims.cell_height) as usize;
            let ghost cols_wanted = cells(width, dims.cell_width) as usize;
            assert(tabs@.tabs =~= old(tabs)@.resized(0, rows_wanted, cols_wanted).tabs);
            let advised = self.advise_renderer_of_resize(width, height);
            match advised {
                Ok(()) => {},
                Err(e) => {
                    return Err(e);
                },
            }
            let ghost advised_host = *self;
            let ghost mut hosts: Seq<Self> = seq![*self];
            let ghost mut answers: Seq<Result<(), HostError>> = Seq::empty();
            let rows = cell_count(height, dims.cell_height);
            let cols = cell_count(width, dims.cell_width);
            let pty_rows = pty_cell_count(height, dims.cell_height);
            let pty_cols = pty_cell_count(width, dims.cell_width);
            let count = tabs.len();
            let mut i: usize = 0;
            while i < count
                invariant
                    i <= count,
                    count == old(tabs)@.tabs.len(),
                    old(tabs).well_formed(),
                    tabs.well_formed(),
                    tabs.spec_next_id() == old(tabs).spec_next_id(),
                    tabs@ == old(tabs)@.resized(i as int, rows_wanted, cols_wanted),
                    rows == rows_wanted,
                    cols == cols_wanted,
                    rows_wanted == cells(height, dims.cell_height) as usize,
                    cols_wanted == cells(width, dims.cell_width) as usize,
                    width != dims.width || height != dims.height,
                    dims.cell_height > 0,
                    dims.cell_width > 0,
                    pty_rows == pty_size(height, dims.cell_height),
                    pty_cols == pty_size(width, dims.cell_width),
                    advised is Ok,
                    exists|advising: &mut Self|
                        *advising == *old(self) && *final(advising) == advised_host
                            && #[trigger] call_ensures(
                            Self::advise_renderer_of_resize,
                            (advising, width, height),
                            advised,
                        ),
                    hosts.len() == i + 1,
                    answers.len() == i,
                    hosts[0] == advised_host,
                    hosts[i as int] == *self,
                    forall|j: int|
                        0 <= j < answers.len() ==> {
                            &&& (#[trigger] answers[j]) is Ok
                            &&& exists|asking: &mut Self|
                                {
                                    &&& *asking == hosts[j]
                                    &&& *final(asking) == hosts[j + 1]
                                    &&& #[trigger] call_ensures(
                                        Self::resize_pty,
                                        (
                                            asking,
                                            old(tabs)@.tabs[j].tab_id,
                                            pty_size(height, dims.cell_height),
                                            pty_size(width, dims.cell_width),
                                            width,
                                            height,
                                        ),
                                        answers[j],
                                    )
                                }
                        },
                decreases count - i,
            {
                let tab_id = tabs.get(i).tab_id();
                let ghost asked = hosts;
                let ghost got = answers;
                let answer = self.resize_pty(tab_id, pty_rows, pty_cols, width, height);
                proof {
                    hosts = asked.push(*self);
                    answers = got.push(answer);
                    assert(hosts.len() == answers.len() + 1);
                    assert(hosts[0] == asked[0]);
                    assert(hosts[i as int] == asked[i as int]);
                    assert(hosts[i + 1] == *self);
                    assert(answers[i as int] == answer);
                    assert(tab_id == old(tabs)@.tabs[i as int].tab_id);
                    assert forall|j: int| 0 <= j < answers.len() implies {
                        &&& (#[trigger] answers[j]) is Ok || (j == answers.len() - 1 && answer is Err)
                        &&& exists|asking: &mut Self|
                            {
                                &&& *asking == hosts[j]
                                &&& *final(asking) == hosts[j + 1]
                                &&& #[trigger] call_ensures(
                                    Self::resize_pty,
                                    (
                                        asking,
                                        old(tabs)@.tabs[j].tab_id,
                                        pty_size(height, dims.cell_height),
                                        pty_size(width, dims.cell_width),
                                        width,
                                        height,
                                    ),
                                    answers[j],
                                )
                            }
                    } by {
                        if j < i {
                            assert(got[j] is Ok);
                            assert(hosts[j] == asked[j]);
                            assert(hosts[j + 1] == asked[j + 1]);
                            assert(answers[j] == got[j]);
                        } else {
                            assert(hosts[j] == hosts[i as int]);
                            assert(hosts[j + 1] == hosts[i + 1]);
                            assert(answers[j] == answers[i as int]);
                            assert(old(tabs)@.tabs[j].tab_id == tab_id);
                        }
                    }
                }
                match answer {
                    Ok(()) => {},
                    Err(e) => {
                        return Err(e);
                    },
                }
                tabs.resize_terminal(i, rows, cols);
                assert(tabs@.tabs =~= old(tabs)@.resized(i + 1, rows_wanted, cols_wanted).tabs);
                i = i + 1;
            }
            Ok(true)
        } else {
            Ok(false)
        }
    }

    /// Takes note that the program of a tab has ended: the tab leaves the
    /// tabs, and the tab that is then active is to be painted again. The
    /// window is asked to show the title of the tabs that are left, where
    /// any is left, and then the host is told once that the tab is gone.
    /// That the host cannot take the note is no failure.
    fn tab_did_terminate(&mut self, tabs: &mut Tabs, tab_id: TabId)
        requires
            old(tabs).well_formed(),
        ensures
            final(tabs).well_formed(),
            final(tabs).spec_next_id() == old(tabs).spec_next_id(),
            final(tabs)@ == old(tabs)@.terminated(tab_id),
            exists|telling: &mut Self, told: Result<(), HostError>|
                {
                    &&& match window_title(final(tabs)@) {
                        None => *telling == *old(self),
                        Some(title) => exists|host: &mut Self, text: &str, shown: Result<(), HostError>|
                            *host == *old(self) && *final(host) == *telling && text@ == title
                                && #[trigger] call_ensures(
                                Self::set_window_title,
                                (host, text),
                                shown,
                            ),
                    }
                    &&& *final(telling) == *final(self)
                    &&& #[trigger] call_ensures(Self::deregister_tab, (telling, tab_id), told)
                },
    {
        tabs.remove_by_id(tab_id);
        if !tabs.is_empty() {
            tabs.make_active_dirty();
            self.update_title(tabs);
        }
        let _ = self.deregister_tab(tab_id);
    }

    /// Asks the host of every tab, in their order, whether its program has
    /// ended, and then lets every tab go of which the host said so, in that
    /// order, as `tab_did_terminate` does. Tells whether no tab is left.
    fn test_for_child_exit(&mut self, tabs: &mut Tabs) -> (empty: bool)
        requires
            old(tabs).well_formed(),
        ensures
            final(tabs).well_formed(),
            final(tabs).spec_next_id() == old(tabs).spec_next_id(),
            empty == (final(tabs)@.tabs.len() == 0),
            exists|dead: Seq<TabId>|
                {
                    &&& final(tabs)@ == #[trigger] old(tabs)@.reaped(dead)
                    &&& forall|i: int| 0 <= i < dead.len() ==> old(tabs)@.has(#[trigger] dead[i])
                },
            exists|polling: &mut Self, dead: Vec<TabId>, letting: &mut Self, inner: &mut Tabs|
                {
                    &&& *polling == *old(self)
                    &&& #[trigger] call_ensures(Self::exited_tabs, (polling, &*old(tabs)), dead)
                    &&& *letting == *final(polling)
                    &&& *final(letting) == *final(self)
                    &&& *inner == *old(tabs)
                    &&& *final(inner) == *final(tabs)
                    &&& #[trigger] call_ensures(Self::terminate_tabs, (letting, inner, &dead), ())
                },
    {
        let dead_tabs = self.exited_tabs(tabs);
        self.terminate_tabs(tabs, &dead_tabs);
        tabs.is_empty()
    }

    /// Asks the host of every tab, in their order, whether its program has
    /// ended, and lists the identifiers of the tabs of which it says so, in
    /// their order.
    fn exited_tabs(&mut self, tabs: &Tabs) -> (dead: Vec<TabId>)
        requires
            tabs.well_formed(),
        ensures
            forall|k: int| 0 <= k < dead@.len() ==> tabs@.has(#[trigger] dead@[k]),
            exists|polls: Seq<bool>, asked: Seq<TabId>, hosts: Seq<Self>|
                {
                    &&& #[trigger] polls.len() == tabs@.tabs.len()
                    &&& #[trigger] asked.len() == tabs@.tabs.len()
                    &&& #[trigger] hosts.len() == tabs@.tabs.len() + 1
                    &&& hosts[0] == *old(self)
                    &&& hosts[tabs@.tabs.len() as int] == *final(self)
                    &&& dead@ == tabs@.ended(polls, tabs@.tabs.len() as int)
                    &&& forall|i: int|
                        0 <= i < tabs@.tabs.len() ==> dead@.contains(
                            (#[trigger] tabs@.tabs[i]).tab_id,
                        ) == polls[i]
                    &&& forall|i: int|
                        0 <= i < asked.len() ==> {
                            &&& (#[trigger] asked[i]) == tabs@.tabs[i].tab_id
                            &&& exists|asking: &mut Self|
                                {
                                    &&& *asking == hosts[i]
                                    &&& *final(asking) == hosts[i + 1]
                                    &&& #[trigger] call_ensures(
                                        Self::child_has_exited,
                                        (asking, asked[i]),
                                        polls[i],
                                    )
                                }
                        }
                },
    {
        let mut dead: Vec<TabId> = Vec::new();
        let ghost mut polls: Seq<bool> = Seq::empty();
        let ghost mut asked: Seq<TabId> = Seq::empty();
        let ghost mut hosts: Seq<Self> = seq![*self];
        let count = tabs.len();
        let mut i: usize = 0;
        while i < count
            invariant
                i <= count,
                count == tabs@.tabs.len(),
                tabs.well_formed(),
                polls.len() == i,
                asked.len() == i,
                hosts.len() == i + 1,
                hosts[0] == *old(self),
                hosts[i as int] == *self,
                dead@ == tabs@.ended(polls, i as int),
                forall|j: int|
                    0 <= j < asked.len() ==> {
                        &&& (#[trigger] asked[j]) == tabs@.tabs[j].tab_id
                        &&& exists|asking: &mut Self|
                            {
                                &&& *asking == hosts[j]
                                &&& *final(asking) == hosts[j + 1]
                                &&& #[trigger] call_ensures(
                                    Self::child_has_exited,
                                    (asking, asked[j]),
                                    polls[j],
                                )
                            }
                    },
            decreases count - i,
        {
            let tab_id = tabs.get(i).tab_id();
            let ghost named = asked;
            let ghost got = polls;
            let ghost seen = hosts;
            let answer = self.child_has_exited(tab_id);
            proof {
                asked = named.push(tab_id);
                polls = got.push(answer);
                hosts = seen.push(*self);
                assert(hosts.len() == asked.len() + 1);
                assert(hosts[0] == seen[0]);
                assert(hosts[i as int] == seen[i as int]);
                assert(hosts[i + 1] == *self);
                assert(polls[i as int] == answer);
                assert(asked[i as int] == tab_id);
                assert(tab_id == tabs@.tabs[i as int].tab_id);
                lemma_ended_prefix(tabs@, got, polls, i as int);
                assert forall|j: int| 0 <= j < asked.len() implies {
                    &&& (#[trigger] asked[j]) == tabs@.tabs[j].tab_id
                    &&& exists|asking: &mut Self|
                        {
                            &&& *asking == hosts[j]
                            &&& *final(asking) == hosts[j + 1]
                            &&& #[trigger] call_ensures(
                                Self::child_has_exited,
                                (asking, asked[j]),
                                polls[j],
                            )
                        }
                } by {
                    if j < i {
                        assert(named[j] == tabs@.tabs[j].tab_id);
                        assert(asked[j] == named[j]);
                        assert(polls[j] == got[j]);
                        assert(hosts[j] == seen[j]);
                        assert(hosts[j + 1] == seen[j + 1]);
                    } else {
                        assert(asked[j] == asked[i as int]);
                        assert(polls[j] == polls[i as int]);
                        assert(hosts[j] == hosts[i as int]);
                        assert(hosts[j + 1] == hosts[i + 1]);
                    }
                }
            }
            if answer {
                dead.push(tab_id);
            }
            i = i + 1;
        }
        proof {
            lemma_ended(tabs@, polls, count as int);
            assert(polls.len() == tabs@.tabs.len());
            assert(asked.len() == tabs@.tabs.len());
            assert(hosts.len() == tabs@.tabs.len() + 1);
        }
        dead
    }

    /// Lets the tabs of the given identifiers go, one after the other, as
    /// `tab_did_terminate` does.
    fn terminate_tabs(&mut self, tabs: &mut Tabs, dead: &Vec<TabId>)
        requires
            old(tabs).well_formed(),
        ensures
            final(tabs).well_formed(),
            final(tabs).spec_next_id() == old(tabs).spec_next_id(),
            final(tabs)@ == old(tabs)@.reaped(dead@),
            exists|lefts: Seq<Tabs>, hosts: Seq<Self>|
                {
                    &&& #[trigger] lefts.len() == dead@.len() + 1
                    &&& #[trigger] hosts.len() == dead@.len() + 1
                    &&& lefts[0] == *old(tabs)
                    &&& hosts[0] == *old(self)
                    &&& lefts[dead@.len() as int] == *final(tabs)
                    &&& hosts[dead@.len() as int] == *final(self)
                    &&& forall|k: int|
                        0 <= k < lefts.len() - 1 ==> {
                            &&& (#[trigger] lefts[k]).spec_next_id() == old(tabs).spec_next_id()
                            &&& exists|telling: &mut Self, inner: &mut Tabs|
                                {
                                    &&& *telling == hosts[k]
                                    &&& *final(telling) == hosts[k + 1]
                                    &&& *inner == lefts[k]
                                    &&& *final(inner) == lefts[k + 1]
                                    &&& #[trigger] call_ensures(
                                        Self::tab_did_terminate,
                                        (telling, inner, dead@[k]),
                                        (),
                                    )
                                }
                        }
                },
    {
        let ghost mut lefts: Seq<Tabs> = seq![*tabs];
        let ghost mut hosts: Seq<Self> = seq![*self];
        let mut k: usize = 0;
        while k < dead.len()
            invariant
                k <= dead@.len(),
                tabs.well_formed(),
                tabs.spec_next_id() == old(tabs).spec_next_id(),
                tabs@ == old(tabs)@.reaped(dead@.subrange(0, k as int)),
                lefts.len() == k + 1,
                hosts.len() == k + 1,
                lefts[0] == *old(tabs),
                hosts[0] == *old(self),
                lefts[k as int] == *tabs,
                hosts[k as int] == *self,
                forall|j: int|
                    0 <= j < lefts.len() - 1 ==> {
                        &&& (#[trigger] lefts[j]).spec_next_id() == old(tabs).spec_next_id()
                        &&& exists|telling: &mut Self, inner: &mut Tabs|
                            {
                                &&& *telling == hosts[j]
                                &&& *final(telling) == hosts[j + 1]
                                &&& *inner == lefts[j]
                                &&& *final(inner) == lefts[j + 1]
                                &&& #[trigger] call_ensures(
                                    Self::tab_did_terminate,
                                    (telling, inner, dead@[j]),
                                    (),
                                )
                            }
                    },
            decreases dead@.len() - k,
        {
            let tab_id = dead[k];
            let ghost were = lefts;
            let ghost seen = hosts;
            self.tab_did_terminate(tabs, tab_id);
            proof {
                let next = dead@.subrange(0, k + 1);
                assert(next.drop_last() =~= dead@.subrange(0, k as int));
                lefts = were.push(*tabs);
                hosts = seen.push(*self);
                assert(lefts.len() == hosts.len());
                assert(lefts[0] == were[0]);
                assert(hosts[0] == seen[0]);
                assert(lefts[k as int] == were[k as int]);
                assert(hosts[k as int] == seen[k as int]);
                assert(lefts[k + 1] == *tabs);
                assert(hosts[k + 1] == *self);
                assert(dead@[k as int] == tab_id);
                assert forall|j: int| 0 <= j < lefts.len() - 1 implies {
                    &&& (#[trigger] lefts[j]).spec_next_id() == old(tabs).spec_next_id()
                    &&& exists|telling: &mut Self, inner: &mut Tabs|
                        {
                            &&& *telling == hosts[j]
                            &&& *final(telling) == hosts[j + 1]
                            &&& *inner == lefts[j]
                            &&& *final(inner) == lefts[j + 1]
                            &&& #[trigger] call_ensures(
                                Self::tab_did_terminate,
                                (telling, inner, dead@[j]),
                                (),
                            )
                        }
                } by {
                    if j < k {
                        assert(were[j].spec_next_id() == old(tabs).spec_next_id());
                        assert(lefts[j] == were[j]);
                        assert(lefts[j + 1] == were[j + 1]);
                        assert(hosts[j] == seen[j]);
                        assert(hosts[j + 1] == seen[j + 1]);
                    } else {
                        assert(lefts[j] == lefts[k as int]);
                        assert(lefts[j + 1] == lefts[k + 1]);
                        assert(hosts[j] == hosts[k as int]);
                        assert(hosts[j + 1] == hosts[k + 1]);
                        assert(dead@[j] == dead@[k as int]);
                    }
                }
            }
            k = k + 1;
        }
        proof {
            assert(dead@.subrange(0, dead@.len() as int) =~= dead@);
            assert(lefts.len() == dead@.len() + 1);
            assert(hosts.len() == dead@.len() + 1);
        }
    }
}

/// Replacing the terminal of one tab twice is replacing it once.
pub proof fn lemma_one_terminal_changed(start: TabsView, middle: TabsView, end: TabsView)
    requires
        0 <= start.active < start.tabs.len(),
        exists|terminal: TerminalView| middle == #[trigger] start.with_terminal(start.active, terminal),
        exists|terminal: TerminalView| end == #[trigger] middle.with_terminal(middle.active, terminal),
    ensures
        exists|terminal: TerminalView| end == #[trigger] start.with_terminal(start.active, terminal),
{
    let first = choose|terminal: TerminalView|
        middle == #[trigger] start.with_terminal(start.active, terminal);
    let second = choose|terminal: TerminalView|
        end == #[trigger] middle.with_terminal(middle.active, terminal);
    assert(middle == start.with_terminal(start.active, first));
    assert(end.tabs =~= start.with_terminal(start.active, second).tabs);
}

} // verus!
