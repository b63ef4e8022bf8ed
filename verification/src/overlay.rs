use crate::tabs::Tab;
use crate::tabs::TabId;
use crate::tabs::TerminalState;
use crate::tabs::TerminalView;
use vstd::prelude::*;

verus! {

/// The work of an overlay, to be run away from the window: a function that
/// works on the overlay, and a way to tell the window when it is done.
pub struct Overlay<F, N> {
    tab_id: TabId,
    func: F,
    notify: N,
}

impl<F, N> Overlay<F, N> {
    /// The tab that the overlay lies over.
    pub closed spec fn spec_tab_id(&self) -> TabId {
        self.tab_id
    }

    /// The function that works on the overlay.
    pub closed spec fn spec_func(&self) -> F {
        self.func
    }

    /// The way to tell the window that the overlay is done.
    pub closed spec fn spec_notify(&self) -> N {
        self.notify
    }

    /// The tab that the overlay lies over.
    pub fn tab_id(&self) -> (id: TabId)
        ensures
            id == self.spec_tab_id(),
    {
        self.tab_id
    }

    /// Runs the function of the overlay on `surface`, the side of the
    /// overlay that is written to, then tells the window that the overlay
    /// over its tab is done, whatever the function gave, and hands out what
    /// the function gave.
    pub fn run<W, R>(self, surface: W) -> (r: R) where F: FnOnce(TabId, W) -> R, N: FnOnce(TabId)
        requires
            call_requires(self.spec_func(), (self.spec_tab_id(), surface)),
            call_requires(self.spec_notify(), (self.spec_tab_id(),)),
        ensures
            call_ensures(self.spec_func(), (self.spec_tab_id(), surface), r),
            call_ensures(self.spec_notify(), (self.spec_tab_id(),), ()),
    {
        let Overlay { tab_id, func, notify } = self;
        let res = func(tab_id, surface);
        notify(tab_id);
        res
    }
}

/// Prepares an overlay over a tab: a terminal of the size of the terminal
/// of the tab, with nothing kept above the screen, for the overlay to show,
/// and the work to be run away from the window.
pub fn start_overlay<F, N>(tab: &Tab, func: F, notify: N) -> (r: (TerminalState, Overlay<F, N>))
    ensures
        r.0@ == (TerminalView {
            title: Seq::empty(),
            rows: tab@.terminal.rows,
            cols: tab@.terminal.cols,
            scrollback: 0,
            dirty: true,
        }),
        r.1.spec_tab_id() == tab@.tab_id,
        r.1.spec_func() == func,
        r.1.spec_notify() == notify,
{
    let tab_id = tab.tab_id();
    let terminal = TerminalState::new(tab.terminal().rows(), tab.terminal().cols(), 0);
    (terminal, Overlay { tab_id, func, notify })
}

} // verus!
