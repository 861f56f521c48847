//! The state of the input line that is pinned to the bottom of the terminal.

use crate::session::model::copy_text;
use std::collections::VecDeque;
use vstd::prelude::*;

verus! {

/// What has to be done to the terminal.
#[derive(Debug, Clone, Copy, PartialEq, Eq, Structural)]
pub enum TerminalChange {
    /// Raw mode on, then bracketed paste on.
    ToRaw,
    /// Bracketed paste off, then raw mode off.
    ToCooked,
}

/// Whether raw mode and bracketed paste are on.
#[derive(Debug)]
pub struct RawModeGuard {
    pub active: bool,
}

impl RawModeGuard {
    /// A guard for a terminal that has just been put into raw mode.
    pub fn new() -> (r: RawModeGuard)
        ensures
            r.active,
    {
        RawModeGuard { active: true }
    }

    /// Temporarily restore cooked mode (e.g. while printing formatted output).
    pub fn suspend(&mut self) -> (r: Option<TerminalChange>)
        ensures
            !final(self).active,
            r == if old(self).active {
                Some(TerminalChange::ToCooked)
            } else {
                None
            },
    {
        if self.active {
            self.active = false;
            Some(TerminalChange::ToCooked)
        } else {
            None
        }
    }

    pub fn resume(&mut self) -> (r: Option<TerminalChange>)
        ensures
            final(self).active,
            r == if old(self).active {
                None
            } else {
                Some(TerminalChange::ToRaw)
            },
    {
        if self.active {
            None
        } else {
            self.active = true;
            Some(TerminalChange::ToRaw)
        }
    }
}

/// An entry of the command palette.
#[derive(Debug)]
pub struct PaletteItem {
    /// What the entry reads as.
    pub label: String,
    /// What the input becomes when the entry is chosen.
    pub completion: String,
}

impl Clone for PaletteItem {
    fn clone(&self) -> (r: PaletteItem)
        ensures
            r == *self,
    {
        PaletteItem { label: self.label.clone(), completion: self.completion.clone() }
    }
}

fn copy_items(items: &Vec<PaletteItem>) -> (r: Vec<PaletteItem>)
    ensures
        r@ == items@,
{
    let mut r: Vec<PaletteItem> = Vec::new();
    for i in 0..items.len()
        invariant
            r@ == items@.take(i as int),
    {
        r.push(items[i].clone());
        assert(items@.take(i + 1) =~= items@.take(i as int).push(items@[i as int]));
    }
    assert(items@.take(items@.len() as int) =~= items@);
    r
}

/// The segments of the status line.
#[derive(Debug)]
pub struct StatusInfo {
    pub model: String,
    pub session: String,
    pub token_estimate: usize,
    pub tools_enabled: bool,
    pub effort: Option<String>,
}

impl Clone for StatusInfo {
    fn clone(&self) -> (r: StatusInfo)
        ensures
            r == *self,
    {
        StatusInfo {
            model: self.model.clone(),
            session: self.session.clone(),
            token_estimate: self.token_estimate,
            tools_enabled: self.tools_enabled,
            effort: copy_text(&self.effort),
        }
    }
}

/// The indicator shown while an answer is awaited.
#[derive(Debug)]
pub struct SpinnerInfo {
    pub frame: usize,
    pub elapsed_millis: u64,
    pub label: String,
}

/// Everything that is painted at the bottom of the terminal.
#[derive(Debug)]
pub struct AnchorState {
    pub input: String,
    pub cursor: usize,
    pub status: StatusInfo,
    pub spinner: Option<SpinnerInfo>,
    pub queued: usize,
    pub palette: Vec<PaletteItem>,
    pub palette_selected: usize,
}

/// Palette state and the queue of messages submitted while a response was
/// awaited. The line editor is kept beside it; what its buffer matches in the
/// palette is handed in.
#[derive(Debug)]
pub struct AnchorUi {
    pub guard: RawModeGuard,
    pub queued: VecDeque<String>,
    /// Palette hidden via Esc until the buffer changes again.
    pub palette_hidden: bool,
    /// Entries pinned while Tab-cycling (so completing doesn't re-filter).
    pub palette_pin: Option<Vec<PaletteItem>>,
    pub palette_index: usize,
    /// First Ctrl+C on an empty buffer arms exit; the second exits.
    pub ctrl_c_armed: bool,
}

impl AnchorUi {
    /// The selected entry is one of the pinned ones.
    pub open spec fn wf(self) -> bool {
        match self.palette_pin {
            Some(pinned) => self.palette_index < pinned@.len(),
            None => true,
        }
    }

    /// The entries on show when the buffer matches `filtered`.
    pub open spec fn shown(self, filtered: Seq<PaletteItem>) -> Seq<PaletteItem> {
        if self.palette_hidden {
            Seq::empty()
        } else {
            match self.palette_pin {
                Some(pinned) => pinned@,
                None => filtered,
            }
        }
    }

    /// The entry that is highlighted among `shown` ones.
    pub open spec fn selected(self, shown: Seq<PaletteItem>) -> int {
        if shown.len() == 0 {
            0
        } else if self.palette_index < shown.len() {
            self.palette_index as int
        } else {
            shown.len() - 1
        }
    }

    pub fn new(guard: RawModeGuard) -> (r: AnchorUi)
        ensures
            r.wf(),
            r.guard == guard,
            r.queued@ == Seq::<String>::empty(),
            !r.palette_hidden,
            r.palette_pin is None,
            r.palette_index == 0,
            !r.ctrl_c_armed,
    {
        AnchorUi {
            guard,
            queued: VecDeque::new(),
            palette_hidden: false,
            palette_pin: None,
            palette_index: 0,
            ctrl_c_armed: false,
        }
    }

    pub fn palette_items(&self, filtered: &Vec<PaletteItem>) -> (r: Vec<PaletteItem>)
        ensures
            r@ == self.shown(filtered@),
    {
        if self.palette_hidden {
            return Vec::new();
        }
        match &self.palette_pin {
            Some(pinned) => copy_items(pinned),
            None => copy_items(filtered),
        }
    }

    pub fn build_state(
        &self,
        input: &str,
        cursor: usize,
        filtered: &Vec<PaletteItem>,
        status: &StatusInfo,
        spinner: Option<SpinnerInfo>,
    ) -> (r: AnchorState)
        ensures
            r.input@ == input@,
            r.cursor == cursor,
            r.status == *status,
            r.spinner == spinner,
            r.queued == self.queued@.len(),
            r.palette@ == self.shown(filtered@),
            r.palette_selected == self.selected(self.shown(filtered@)),
    {
        let palette = self.palette_items(filtered);
        let selected: usize = if palette.len() == 0 {
            0
        } else if self.palette_index < palette.len() {
            self.palette_index
        } else {
            palette.len() - 1
        };
        AnchorState {
            input: input.to_owned(),
            cursor,
            status: status.clone(),
            spinner,
            queued: self.queued.len(),
            palette,
            palette_selected: selected,
        }
    }

    /// Drop to cooked mode, so that ordinary output renders correctly above
    /// the erased anchor.
    pub fn begin_suspended(&mut self) -> (r: Option<TerminalChange>)
        ensures
            r == if old(self).guard.active {
                Some(TerminalChange::ToCooked)
            } else {
                None
            },
            !final(self).guard.active,
            *final(self) == (AnchorUi { guard: final(self).guard, ..*old(self) }),
    {
        self.guard.suspend()
    }

    pub fn end_suspended(&mut self) -> (r: Option<TerminalChange>)
        ensures
            r == if old(self).guard.active {
                None
            } else {
                Some(TerminalChange::ToRaw)
            },
            final(self).guard.active,
            *final(self) == (AnchorUi { guard: final(self).guard, ..*old(self) }),
    {
        self.guard.resume()
    }

    /// The buffer changed through typing/paste: unpin the palette.
    pub fn on_buffer_change(&mut self)
        ensures
            final(self).wf(),
            *final(self) == (AnchorUi {
                palette_pin: None,
                palette_index: 0,
                palette_hidden: false,
                ctrl_c_armed: false,
                ..*old(self)
            }),
    {
        self.palette_pin = None;
        self.palette_index = 0;
        self.palette_hidden = false;
        self.ctrl_c_armed = false;
    }

    /// Esc closes the palette until the buffer changes.
    pub fn hide_palette(&mut self)
        ensures
            final(self).wf(),
            *final(self) == (AnchorUi { palette_hidden: true, palette_pin: None, ..*old(self) }),
    {
        self.palette_hidden = true;
        self.palette_pin = None;
    }

    /// The position that Tab moves to among the shown entries.
    pub open spec fn next_index(self, shown: Seq<PaletteItem>) -> int {
        if self.palette_pin is None || self.palette_index + 1 == shown.len() {
            0
        } else {
            self.palette_index + 1
        }
    }

    /// Tab: complete to the selected palette entry; further Tabs cycle. The
    /// text that the input becomes is returned.
    pub fn cycle_palette(&mut self, filtered: &Vec<PaletteItem>) -> (r: Option<String>)
        requires
            old(self).wf(),
        ensures
            final(self).wf(),
            ({
                let shown = old(self).shown(filtered@);
                let next = old(self).next_index(shown);
                if shown.len() == 0 {
                    r is None && *final(self) == *old(self)
                } else {
                    &&& r == Some(shown[next].completion)
                    &&& final(self).palette_pin matches Some(pinned) && pinned@ == shown
                    &&& final(self).palette_index == next
                    &&& *final(self) == (AnchorUi {
                        palette_pin: final(self).palette_pin,
                        palette_index: final(self).palette_index,
                        ..*old(self)
                    })
                }
            }),
    {
        let items = self.palette_items(filtered);
        if items.len() == 0 {
            return None;
        }
        match self.palette_pin {
            None => {
                self.palette_index = 0;
            },
            Some(_) => {
                self.palette_index = if self.palette_index + 1 < items.len() {
                    self.palette_index + 1
                } else {
                    0
                };
            },
        }
        let completion = items[self.palette_index].completion.clone();
        self.palette_pin = Some(items);
        Some(completion)
    }
}

// ---------------------------------------------------------------------
// Laws
// ---------------------------------------------------------------------

/// The selected entry after `n` more presses of Tab, while the same entries
/// stay pinned.
pub open spec fn after_tabs(ui: AnchorUi, pinned: Seq<PaletteItem>, n: nat) -> int
    decreases n,
{
    if n == 0 {
        ui.palette_index as int
    } else {
        let at = after_tabs(ui, pinned, (n - 1) as nat);
        AnchorUi { palette_index: at as usize, ..ui }.next_index(pinned)
    }
}

/// Pressing Tab goes round all the pinned entries: every one is reached, and
/// after as many presses as there are entries the same one is selected again.
pub proof fn tabs_go_round(ui: AnchorUi, pinned: Seq<PaletteItem>, n: nat)
    requires
        ui.wf(),
        ui.palette_pin matches Some(list) && list@ == pinned,
    ensures
        after_tabs(ui, pinned, n) == (ui.palette_index + n) % pinned.len() as int,
    decreases n,
{
    let len = pinned.len() as int;
    let start = ui.palette_index as int;
    if n == 0 {
        vstd::arithmetic::div_mod::lemma_small_mod(start as nat, len as nat);
    } else {
        let m = start + n - 1;
        tabs_go_round(ui, pinned, (n - 1) as nat);
        let q = m / len;
        let r = m % len;
        vstd::arithmetic::div_mod::lemma_fundamental_div_mod(m, len);
        assert(0 <= r < len);
        assert(ui.palette_pin->0.len() == len);
        if r + 1 == len {
            assert(m + 1 == (q + 1) * len) by (nonlinear_arith)
                requires
                    m == len * q + r,
                    r + 1 == len,
            ;
            vstd::arithmetic::div_mod::lemma_fundamental_div_mod_converse(m + 1, len, q + 1, 0);
        } else {
            assert(m + 1 == q * len + (r + 1)) by (nonlinear_arith)
                requires
                    m == len * q + r,
            ;
            vstd::arithmetic::div_mod::lemma_fundamental_div_mod_converse(m + 1, len, q, r + 1);
        }
    }
}

} // verus!
