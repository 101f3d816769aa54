//! The bookkeeping of the notification windows: which windows each layout shows, what each
//! window is doing, the history of closed notifications, and how mouse presses and the
//! passing of time change all of that. Drawing and placing windows on screen is done by the
//! caller, which names each window by a key.
use vstd::prelude::*;
use vstd::relations::injective_on;
use vstd::set_lib::{lemma_int_range, lemma_map_size, lemma_subset_equality, set_int_range};
use std::collections::VecDeque;
use crate::cli::{CLIError, SocketCommand, WindowSelector, parse_action_index, usize_numeral, not_usize_message};
use crate::config::ShortcutsConfig;
use crate::layout::{LayoutBlock, meets_layout_criteria, notification_meets_layout_criteria};
use crate::notification::{Notification, opt_text, slot_key};

verus! {

/// What a window updates on each frame: its blocks (`draw`) and its countdown (`fuse`).
#[derive(Clone, Copy, Debug, PartialEq, Eq, Structural)]
pub struct UpdateModes {
    pub draw: bool,
    pub fuse: bool,
}

impl UpdateModes {
    /// The modes of `self` with those of `other` switched over.
    pub open spec fn toggled(self, other: UpdateModes) -> UpdateModes {
        UpdateModes { draw: self.draw != other.draw, fuse: self.fuse != other.fuse }
    }

    /// Whether every mode of `other` is set in `self`.
    pub open spec fn includes(self, other: UpdateModes) -> bool {
        (other.draw ==> self.draw) && (other.fuse ==> self.fuse)
    }

    /// No mode.
    pub fn empty() -> (m: Self)
        ensures
            !m.draw,
            !m.fuse,
    {
        UpdateModes { draw: false, fuse: false }
    }

    /// Drawing only.
    pub fn draw_mode() -> (m: Self)
        ensures
            m.draw,
            !m.fuse,
    {
        UpdateModes { draw: true, fuse: false }
    }

    /// The countdown only.
    pub fn fuse_mode() -> (m: Self)
        ensures
            !m.draw,
            m.fuse,
    {
        UpdateModes { draw: false, fuse: true }
    }

    /// Every mode.
    pub fn all() -> (m: Self)
        ensures
            m.draw,
            m.fuse,
    {
        UpdateModes { draw: true, fuse: true }
    }

    /// Whether every mode of `other` is set.
    pub fn contains(&self, other: UpdateModes) -> (b: bool)
        ensures
            b == self.includes(other),
    {
        (!other.draw || self.draw) && (!other.fuse || self.fuse)
    }

    /// Switches over the modes that `other` has.
    pub fn toggle(&mut self, other: UpdateModes)
        ensures
            *final(self) == old(self).toggled(other),
    {
        self.draw = self.draw != other.draw;
        self.fuse = self.fuse != other.fuse;
    }
}

impl Default for UpdateModes {
    /// No mode.
    fn default() -> (m: Self)
        ensures
            !m.draw,
            !m.fuse,
    {
        UpdateModes::empty()
    }
}

/// Switching the same modes twice gives back what there was.
pub proof fn toggle_twice_restores(m: UpdateModes, other: UpdateModes)
    ensures
        m.toggled(other).toggled(other) == m,
{
}

/// What the manager knows of one notification window. `key` names the window to whoever
/// draws it; `creation_stamp` is when it was made, in a unit of the caller's choosing.
#[derive(Debug)]
pub struct NotifyWindow {
    pub key: u64,
    pub notification: Notification,
    pub marked_for_destroy: bool,
    /// Milliseconds left before the window closes by itself.
    pub fuse: i32,
    pub update_mode: UpdateModes,
    /// Whether the window must be drawn again.
    pub dirty: bool,
    pub creation_stamp: i64,
}

impl NotifyWindow {
    /// A new window for `notification`: counting down from the notification's timeout,
    /// updating everything, and waiting for its first drawing.
    pub fn new(key: u64, notification: Notification, creation_stamp: i64) -> (w: Self)
        ensures
            w.key == key,
            w.notification == notification,
            !w.marked_for_destroy,
            w.fuse == notification.timeout,
            w.update_mode.draw && w.update_mode.fuse,
            w.dirty,
            w.creation_stamp == creation_stamp,
    {
        let fuse = notification.timeout;
        NotifyWindow {
            key,
            notification,
            marked_for_destroy: false,
            fuse,
            update_mode: UpdateModes::all(),
            dirty: true,
            creation_stamp,
        }
    }

    /// Shows `new_notification` in this window instead, restarting the countdown from its
    /// timeout if `resets_timeout`.
    pub fn replace_notification(&mut self, new_notification: Notification, resets_timeout: bool)
        ensures
            final(self).notification == new_notification,
            final(self).fuse == (if resets_timeout {
                new_notification.timeout
            } else {
                old(self).fuse
            }),
            final(self).dirty,
            final(self).key == old(self).key,
            final(self).marked_for_destroy == old(self).marked_for_destroy,
            final(self).update_mode == old(self).update_mode,
            final(self).creation_stamp == old(self).creation_stamp,
    {
        if resets_timeout {
            self.fuse = new_notification.timeout;
        }
        self.notification = new_notification;
        self.dirty = true;
    }

    /// Lets `delta_ms` milliseconds pass on the countdown, if it runs. Returns whether it has
    /// run out, in which case the window is marked for destruction.
    pub fn burn_fuse(&mut self, delta_ms: i32) -> (expired: bool)
        requires
            delta_ms >= 0,
            old(self).update_mode.fuse ==> old(self).fuse - delta_ms >= i32::MIN,
        ensures
            *final(self) == burnt(*old(self), delta_ms),
            expired == fuse_expires(*old(self), delta_ms),
    {
        if self.update_mode.fuse {
            self.fuse = self.fuse - delta_ms;
            if self.fuse <= 0 {
                self.marked_for_destroy = true;
                return true;
            }
        }
        false
    }

    /// Ends a frame: returns whether the window must be drawn (it was dirty, or it updates
    /// its blocks and they changed), and leaves it clean.
    pub fn settle(&mut self, blocks_changed: bool) -> (redraw: bool)
        ensures
            redraw == needs_redraw(*old(self), blocks_changed),
            *final(self) == settled(*old(self)),
    {
        let redraw = self.dirty || (self.update_mode.draw && blocks_changed);
        self.dirty = false;
        redraw
    }
}

/// Whether the countdown of `w` runs out when `delta` milliseconds pass.
pub open spec fn fuse_expires(w: NotifyWindow, delta: i32) -> bool {
    w.update_mode.fuse && w.fuse - delta <= 0
}

/// `w` after `delta` milliseconds passed on its countdown, if it runs: marked for destruction
/// once the countdown is out.
pub open spec fn burnt(w: NotifyWindow, delta: i32) -> NotifyWindow {
    if w.update_mode.fuse {
        NotifyWindow {
            fuse: (w.fuse - delta) as i32,
            marked_for_destroy: w.marked_for_destroy || w.fuse - delta <= 0,
            ..w
        }
    } else {
        w
    }
}

/// Whether `w` must be drawn at the end of a frame in which its blocks changed or not.
pub open spec fn needs_redraw(w: NotifyWindow, blocks_changed: bool) -> bool {
    w.dirty || (w.update_mode.draw && blocks_changed)
}

/// `w` clean.
pub open spec fn settled(w: NotifyWindow) -> NotifyWindow {
    NotifyWindow { dirty: false, ..w }
}

/// The windows of one layout, oldest first.
#[derive(Debug)]
pub struct LayoutWindows {
    pub name: String,
    pub windows: Vec<NotifyWindow>,
}

/// Whether `(l, i)` is the position of a window in `groups`.
pub open spec fn valid_pos(groups: Seq<LayoutWindows>, l: int, i: int) -> bool {
    0 <= l < groups.len() && 0 <= i < groups[l].windows@.len()
}

/// The window at position `(l, i)`.
pub open spec fn window_at(groups: Seq<LayoutWindows>, l: int, i: int) -> NotifyWindow {
    groups[l].windows@[i]
}

/// Position `(l2, i2)` comes before `(l, i)`: layout by layout, then window by window.
pub open spec fn pos_before(l2: int, i2: int, l: int, i: int) -> bool {
    l2 < l || (l2 == l && i2 < i)
}

/// `(l, i)` is the first position whose window satisfies `p`.
pub open spec fn first_where(
    groups: Seq<LayoutWindows>,
    p: spec_fn(NotifyWindow) -> bool,
    l: int,
    i: int,
) -> bool {
    &&& valid_pos(groups, l, i)
    &&& p(window_at(groups, l, i))
    &&& forall|l2: int, i2: int|
        valid_pos(groups, l2, i2) && pos_before(l2, i2, l, i) ==> !p(
            #[trigger] window_at(groups, l2, i2),
        )
}

/// Some window satisfies `p`.
pub open spec fn some_where(groups: Seq<LayoutWindows>, p: spec_fn(NotifyWindow) -> bool) -> bool {
    exists|l: int, i: int| valid_pos(groups, l, i) && p(#[trigger] window_at(groups, l, i))
}

/// The window has key `key`.
pub open spec fn has_key(key: u64) -> spec_fn(NotifyWindow) -> bool {
    |w: NotifyWindow| w.key == key
}

/// The window shows the notification with identifier `id`.
pub open spec fn shows_id(id: u32) -> spec_fn(NotifyWindow) -> bool {
    |w: NotifyWindow| w.notification.id == id
}

/// `a` and `b` have the same layouts, with as many windows each.
pub open spec fn same_shape(a: Seq<LayoutWindows>, b: Seq<LayoutWindows>) -> bool {
    &&& a.len() == b.len()
    &&& forall|l: int|
        0 <= l < a.len() ==> (#[trigger] a[l]).name == b[l].name && a[l].windows@.len()
            == b[l].windows@.len()
}

/// `a` and `b` have the same windows but maybe at `(l, i)`.
pub open spec fn same_except(a: Seq<LayoutWindows>, b: Seq<LayoutWindows>, l: int, i: int) -> bool {
    &&& same_shape(a, b)
    &&& forall|l2: int, i2: int|
        valid_pos(a, l2, i2) && !(l2 == l && i2 == i) ==> #[trigger] window_at(a, l2, i2)
            == window_at(b, l2, i2)
}

/// `w` marked for destruction, and otherwise `v`.
pub open spec fn marked(v: NotifyWindow) -> NotifyWindow {
    NotifyWindow { marked_for_destroy: true, ..v }
}

/// `w` to be drawn again, and otherwise `v`.
pub open spec fn redrawn(v: NotifyWindow) -> NotifyWindow {
    NotifyWindow { dirty: true, ..v }
}

/// `w` with update modes `m`, and otherwise `v`.
pub open spec fn with_modes(v: NotifyWindow, m: UpdateModes) -> NotifyWindow {
    NotifyWindow { update_mode: m, ..v }
}

/// The number of windows in `groups`.
pub open spec fn window_total(groups: Seq<LayoutWindows>) -> nat
    decreases groups.len(),
{
    if groups.len() == 0 {
        0
    } else {
        window_total(groups.drop_last()) + groups.last().windows@.len()
    }
}

/// What a mouse press on a notification window asks for.
#[derive(Debug, Clone, Copy, PartialEq, Eq, Structural)]
pub enum PressAction {
    /// No shortcut is bound to the button.
    Nothing,
    /// Click the blocks of the window under the cursor (a link, a button).
    Interact,
    /// Close every window.
    CloseAll,
    /// Pause or resume the window's countdown.
    TogglePause,
    /// Close the window if `close`, then do `then`.
    Act { close: bool, then: AfterPress },
}

/// What a press does after maybe closing the window.
#[derive(Debug, Clone, Copy, PartialEq, Eq, Structural)]
pub enum AfterPress {
    Nothing,
    /// Invoke the action in this slot (0 the default action).
    Invoke(usize),
    /// Click the blocks under the cursor.
    Interact,
}

/// Whether button `pressed` is the one bound in `binding`.
pub open spec fn bound(pressed: u16, binding: Option<u8>) -> bool {
    binding matches Some(b) && b as u16 == pressed
}

/// What pressing button `pressed` asks for under shortcuts `s`. The interact, close-all and
/// pause bindings are tried first, in that order; otherwise the press closes the window if a
/// closing binding has it, then invokes the action slot of the first action binding that
/// has it, or interacts.
pub open spec fn press_action(pressed: Option<u16>, s: ShortcutsConfig) -> PressAction {
    match pressed {
        None => PressAction::Nothing,
        Some(p) => if bound(p, s.notification_interact) {
            PressAction::Interact
        } else if bound(p, s.notification_closeall) {
            PressAction::CloseAll
        } else if bound(p, s.notification_pause) {
            PressAction::TogglePause
        } else {
            let close = bound(p, s.notification_close) || bound(p, s.notification_action1_and_close)
                || bound(p, s.notification_action2_and_close) || bound(
                p,
                s.notification_action3_and_close,
            ) || bound(p, s.notification_action4_and_close) || bound(
                p,
                s.notification_interact_and_close,
            );
            let then = if bound(p, s.notification_action1) || bound(
                p,
                s.notification_action1_and_close,
            ) {
                AfterPress::Invoke(0)
            } else if bound(p, s.notification_action2) || bound(
                p,
                s.notification_action2_and_close,
            ) {
                AfterPress::Invoke(1)
            } else if bound(p, s.notification_action3) || bound(
                p,
                s.notification_action3_and_close,
            ) {
                AfterPress::Invoke(2)
            } else if bound(p, s.notification_action4) || bound(
                p,
                s.notification_action4_and_close,
            ) {
                AfterPress::Invoke(3)
            } else if bound(p, s.notification_interact_and_close) {
                AfterPress::Interact
            } else {
                AfterPress::Nothing
            };
            PressAction::Act { close, then }
        },
    }
}

/// What a press of button `b` does, binding by binding. The interact, close-all and pause
/// bindings come first, in that order. Otherwise: a button bound to `actionK_and_close`
/// closes the window and invokes action slot K - 1, unless an earlier action binding
/// (`actionJ` or `actionJ_and_close`, J < K) has the button; a button bound to `actionK`
/// alone invokes slot K - 1 without closing; `close` closes without invoking anything; a
/// button that no binding has does nothing; and no button pressed does nothing.
pub proof fn press_follows_the_bindings(b: u8, s: ShortcutsConfig)
    ensures
        press_action(None, s) == PressAction::Nothing,
        s.notification_interact == Some(b) ==> press_action(Some(b as u16), s) == PressAction::Interact,
        s.notification_interact != Some(b) && s.notification_closeall == Some(b) ==> press_action(
            Some(b as u16),
            s,
        ) == PressAction::CloseAll,
        s.notification_interact != Some(b) && s.notification_closeall != Some(b)
            && s.notification_pause == Some(b) ==> press_action(Some(b as u16), s)
            == PressAction::TogglePause,
        ({
            let first = s.notification_interact != Some(b) && s.notification_closeall != Some(b)
                && s.notification_pause != Some(b);
            let no1 = s.notification_action1 != Some(b) && s.notification_action1_and_close != Some(b);
            let no2 = s.notification_action2 != Some(b) && s.notification_action2_and_close != Some(b);
            let no3 = s.notification_action3 != Some(b) && s.notification_action3_and_close != Some(b);
            let no4 = s.notification_action4 != Some(b) && s.notification_action4_and_close != Some(b);
            let closes = s.notification_close == Some(b) || s.notification_action1_and_close == Some(b)
                || s.notification_action2_and_close == Some(b) || s.notification_action3_and_close
                == Some(b) || s.notification_action4_and_close == Some(b)
                || s.notification_interact_and_close == Some(b);
            &&& first && s.notification_action1_and_close == Some(b) ==> press_action(
                Some(b as u16),
                s,
            ) == PressAction::Act { close: true, then: AfterPress::Invoke(0) }
            &&& first && no1 && s.notification_action2_and_close == Some(b) ==> press_action(
                Some(b as u16),
                s,
            ) == PressAction::Act { close: true, then: AfterPress::Invoke(1) }
            &&& first && no1 && no2 && s.notification_action3_and_close == Some(b) ==> press_action(
                Some(b as u16),
                s,
            ) == PressAction::Act { close: true, then: AfterPress::Invoke(2) }
            &&& first && no1 && no2 && no3 && s.notification_action4_and_close == Some(b)
                ==> press_action(Some(b as u16), s) == PressAction::Act {
                close: true,
                then: AfterPress::Invoke(3),
            }
            &&& first && !closes && s.notification_action1 == Some(b) ==> press_action(
                Some(b as u16),
                s,
            ) == PressAction::Act { close: false, then: AfterPress::Invoke(0) }
            &&& first && !closes && no1 && s.notification_action2 == Some(b) ==> press_action(
                Some(b as u16),
                s,
            ) == PressAction::Act { close: false, then: AfterPress::Invoke(1) }
            &&& first && !closes && no1 && no2 && s.notification_action3 == Some(b) ==> press_action(
                Some(b as u16),
                s,
            ) == PressAction::Act { close: false, then: AfterPress::Invoke(2) }
            &&& first && !closes && no1 && no2 && no3 && s.notification_action4 == Some(b)
                ==> press_action(Some(b as u16), s) == PressAction::Act {
                close: false,
                then: AfterPress::Invoke(3),
            }
            &&& first && no1 && no2 && no3 && no4 && s.notification_close == Some(b)
                && s.notification_interact_and_close != Some(b) ==> press_action(Some(b as u16), s)
                == PressAction::Act { close: true, then: AfterPress::Nothing }
            &&& first && no1 && no2 && no3 && no4 && s.notification_interact_and_close == Some(b)
                ==> press_action(Some(b as u16), s) == PressAction::Act {
                close: true,
                then: AfterPress::Interact,
            }
            &&& first && no1 && no2 && no3 && no4 && !closes ==> press_action(Some(b as u16), s)
                == PressAction::Act { close: false, then: AfterPress::Nothing }
        }),
{
}

fn is_bound(pressed: u16, binding: Option<u8>) -> (b: bool)
    ensures
        b == bound(pressed, binding),
{
    match binding {
        Some(x) => x as u16 == pressed,
        None => false,
    }
}

/// What pressing button `pressed` (`None` for no button) asks for; see [`press_action`].
pub fn shortcut_response(pressed: Option<u16>, shortcuts: &ShortcutsConfig) -> (r: PressAction)
    ensures
        r == press_action(pressed, *shortcuts),
{
    let p = match pressed {
        None => return PressAction::Nothing,
        Some(p) => p,
    };
    if is_bound(p, shortcuts.notification_interact) {
        return PressAction::Interact;
    }
    if is_bound(p, shortcuts.notification_closeall) {
        return PressAction::CloseAll;
    }
    if is_bound(p, shortcuts.notification_pause) {
        return PressAction::TogglePause;
    }
    let close = is_bound(p, shortcuts.notification_close) || is_bound(
        p,
        shortcuts.notification_action1_and_close,
    ) || is_bound(p, shortcuts.notification_action2_and_close) || is_bound(
        p,
        shortcuts.notification_action3_and_close,
    ) || is_bound(p, shortcuts.notification_action4_and_close) || is_bound(
        p,
        shortcuts.notification_interact_and_close,
    );
    let then = if is_bound(p, shortcuts.notification_action1) || is_bound(
        p,
        shortcuts.notification_action1_and_close,
    ) {
        AfterPress::Invoke(0)
    } else if is_bound(p, shortcuts.notification_action2) || is_bound(
        p,
        shortcuts.notification_action2_and_close,
    ) {
        AfterPress::Invoke(1)
    } else if is_bound(p, shortcuts.notification_action3) || is_bound(
        p,
        shortcuts.notification_action3_and_close,
    ) {
        AfterPress::Invoke(2)
    } else if is_bound(p, shortcuts.notification_action4) || is_bound(
        p,
        shortcuts.notification_action4_and_close,
    ) {
        AfterPress::Invoke(3)
    } else if is_bound(p, shortcuts.notification_interact_and_close) {
        AfterPress::Interact
    } else {
        AfterPress::Nothing
    };
    PressAction::Act { close, then }
}

/// What invoking an action of a window comes to.
#[derive(Debug)]
pub enum ActionTrigger {
    /// No window has the key.
    NoWindow,
    /// The window's notification has no action in that slot.
    NoAction,
    /// Tell the sender of notification `0` that its action `1` was invoked.
    Invoke(u32, String),
}

/// What a press on a window leaves for the caller to do.
#[derive(Debug)]
pub enum PressOutcome {
    Nothing,
    /// Click the blocks of the window with this key under the cursor.
    Click(u64),
    /// The result of invoking an action.
    Action(ActionTrigger),
}

/// What invoking action slot `action` of the window with key `key` comes to in `groups`.
pub open spec fn action_trigger_of(groups: Seq<LayoutWindows>, key: u64, action: nat) -> (
    bool,
    Option<(u32, Seq<char>)>,
) {
    if !some_where(groups, has_key(key)) {
        (false, None)
    } else {
        let (l, i) = choose|l: int, i: int| first_where(groups, has_key(key), l, i);
        let w = window_at(groups, l, i);
        match slot_key(w.notification.action_entries(), action) {
            Some(k) => (true, Some((w.notification.id, k))),
            None => (true, None),
        }
    }
}

/// Whether `t` is what [`action_trigger_of`] says.
pub open spec fn trigger_matches(t: ActionTrigger, spec: (bool, Option<(u32, Seq<char>)>)) -> bool {
    match t {
        ActionTrigger::NoWindow => !spec.0,
        ActionTrigger::NoAction => spec.0 && spec.1 is None,
        ActionTrigger::Invoke(id, k) => spec.0 && spec.1 == Some((id, k@)),
    }
}

/// `ws` with `w` added last, and the oldest window marked for destruction if that makes
/// more than `max_notifications` windows (when that is not zero).
pub open spec fn spawned(ws: Seq<NotifyWindow>, w: NotifyWindow, max_notifications: nat) -> Seq<
    NotifyWindow,
> {
    let s = ws.push(w);
    if max_notifications > 0 && s.len() > max_notifications {
        s.update(0, marked(s[0]))
    } else {
        s
    }
}

/// The indices of the layouts of `layouts` that give `n` a window, in order.
pub open spec fn matching_layouts<P>(layouts: Seq<LayoutBlock<P>>, n: Notification) -> Seq<usize>
    decreases layouts.len(),
{
    if layouts.len() == 0 {
        Seq::empty()
    } else {
        let rest = matching_layouts(layouts.drop_last(), n);
        if meets_layout_criteria(layouts.last(), n) {
            rest.push((layouts.len() - 1) as usize)
        } else {
            rest
        }
    }
}

/// `w` is a window just made with key `key` for a copy of `n`, created at `stamp`: counting
/// down from the notification's timeout, updating everything, waiting to be drawn.
pub open spec fn fresh_window(w: NotifyWindow, key: u64, n: Notification, stamp: i64) -> bool {
    &&& w.key == key
    &&& w.notification@ == n@
    &&& !w.marked_for_destroy
    &&& w.fuse == n.timeout
    &&& w.update_mode.draw && w.update_mode.fuse
    &&& w.dirty
    &&& w.creation_stamp == stamp
}

proof fn lemma_matching_layouts_sorted<P>(layouts: Seq<LayoutBlock<P>>, n: Notification)
    requires
        layouts.len() <= usize::MAX,
    ensures
        forall|j: int|
            0 <= j < matching_layouts(layouts, n).len() ==> #[trigger] matching_layouts(layouts, n)[j]
                < layouts.len(),
        forall|a: int, b: int|
            0 <= a < b < matching_layouts(layouts, n).len() ==> #[trigger] matching_layouts(
                layouts,
                n,
            )[a] < #[trigger] matching_layouts(layouts, n)[b],
        matching_layouts(layouts, n).len() <= layouts.len(),
    decreases layouts.len(),
{
    if layouts.len() > 0 {
        let rest = matching_layouts(layouts.drop_last(), n);
        let m = matching_layouts(layouts, n);
        lemma_matching_layouts_sorted(layouts.drop_last(), n);
        if meets_layout_criteria(layouts.last(), n) {
            assert(m == rest.push((layouts.len() - 1) as usize));
            assert forall|j: int| 0 <= j < m.len() implies #[trigger] m[j] < layouts.len() by {
                if j < rest.len() {
                    assert(m[j] == rest[j]);
                }
            }
            assert forall|a: int, b: int| 0 <= a < b < m.len() implies #[trigger] m[a]
                < #[trigger] m[b] by {
                assert(m[a] == rest[a]);
                assert(rest[a] < layouts.drop_last().len());
                if b < rest.len() {
                    assert(m[b] == rest[b]);
                    assert(rest[a] < rest[b]);
                } else {
                    assert(b == rest.len());
                    assert(m[b] == (layouts.len() - 1) as usize);
                    assert(rest[a] < layouts.len() - 1);
                }
            }
        } else {
            assert(m == rest);
        }
    }
}

/// The indices of the layouts that give `notification` a window, in order.
pub fn layouts_for<P>(notification: &Notification, layouts: &Vec<LayoutBlock<P>>) -> (r: Vec<usize>)
    ensures
        r@ == matching_layouts(layouts@, *notification),
{
    let mut r: Vec<usize> = Vec::new();
    let mut l: usize = 0;
    proof {
        assert(layouts@.take(0) =~= Seq::<LayoutBlock<P>>::empty());
    }
    while l < layouts.len()
        invariant
            0 <= l <= layouts@.len(),
            r@ == matching_layouts(layouts@.take(l as int), *notification),
        decreases layouts@.len() - l,
    {
        proof {
            assert(layouts@.take(l + 1).drop_last() =~= layouts@.take(l as int));
        }
        if notification_meets_layout_criteria(&layouts[l], notification) {
            r.push(l);
        }
        l += 1;
    }
    proof {
        assert(layouts@.take(l as int) =~= layouts@);
    }
    r
}

/// Where a window goes when the windows of a layout are placed.
#[derive(Debug, Clone, Copy, PartialEq, Eq, Structural)]
pub enum Placement {
    /// The window is about to close: it stays where it is, under the others.
    Skip,
    /// The first window that stays: anchored to the monitor by the layout's hook.
    Monitor,
    /// Any later window: anchored to the window placed before it.
    Previous,
}

/// Where the window at index `i` of `ws` goes; see [`Placement`].
pub open spec fn placement_of(ws: Seq<NotifyWindow>, i: int) -> Placement {
    if ws[i].marked_for_destroy {
        Placement::Skip
    } else if exists|j: int| 0 <= j < i && !(#[trigger] ws[j]).marked_for_destroy {
        Placement::Previous
    } else {
        Placement::Monitor
    }
}

/// The update modes a window gets when the user's idle time is read: everything when the
/// user just came back and `unpause_on_input`, only drawing once idle for `threshold`
/// seconds, and otherwise what it had.
pub open spec fn idle_modes(
    m: UpdateModes,
    was_idle: bool,
    idle_ms: u64,
    threshold: u64,
    unpause_on_input: bool,
) -> UpdateModes {
    if idle_ms / 1000 >= threshold {
        UpdateModes { draw: true, fuse: false }
    } else if unpause_on_input && was_idle && !(idle_ms / 1000 >= 1) {
        UpdateModes { draw: true, fuse: true }
    } else {
        m
    }
}

/// Whether notification `n`, arriving, takes the place of the one in window `w`: it has the
/// same identifier (when replacing is enabled), or the same application and the same tag.
pub open spec fn replaces(w: NotifyWindow, n: Notification, replacing_enabled: bool) -> bool {
    (w.notification.id == n.id && replacing_enabled) || (w.notification.app_name@ == n.app_name@
        && w.notification.tag is Some && opt_text(w.notification.tag) == opt_text(n.tag))
}

/// A window's notification is replaced by an arriving one only when both have the same
/// identifier and replacing is on, or both come from the same application and carry the same
/// tag (a window without a tag is never taken over by the tag rule, and tags that differ,
/// one of them absent included, never match).
pub proof fn replaced_only_by_same_id_or_same_tag(
    w: NotifyWindow,
    n: Notification,
    replacing_enabled: bool,
)
    ensures
        replaces(w, n, replacing_enabled) <==> (replacing_enabled && w.notification.id == n.id) || (
        w.notification.app_name@ == n.app_name@ && match (w.notification.tag, n.tag) {
            (Some(a), Some(b)) => a@ == b@,
            _ => false,
        }),
{
}

/// When no window of a layout that draws the arriving notification is replaced by it (see
/// [`replaced_only_by_same_id_or_same_tag`]), nothing is a replacement target, so it gets
/// new windows instead.
pub proof fn no_target_without_same_id_or_tag<P>(
    groups: Seq<LayoutWindows>,
    layouts: Seq<LayoutBlock<P>>,
    n: Notification,
    replacing_enabled: bool,
)
    requires
        forall|l: int, i: int|
            valid_pos(groups, l, i) ==> {
                let w = #[trigger] window_at(groups, l, i);
                &&& !(replacing_enabled && w.notification.id == n.id)
                &&& !(w.notification.app_name@ == n.app_name@ && match (w.notification.tag, n.tag) {
                    (Some(a), Some(b)) => a@ == b@,
                    _ => false,
                })
            },
    ensures
        forall|l: int, i: int| !#[trigger] replace_target(groups, layouts, n, replacing_enabled, l, i),
{
    assert forall|l: int, i: int| !#[trigger] replace_target(groups, layouts, n, replacing_enabled, l, i) by {
        if valid_pos(groups, l, i) {
            replaced_only_by_same_id_or_same_tag(window_at(groups, l, i), n, replacing_enabled);
        }
    }
}

/// Whether `n` replaces the notification of the window at `(l, i)`, whose layout gives `n`
/// a window.
pub open spec fn replace_target<P>(
    groups: Seq<LayoutWindows>,
    layouts: Seq<LayoutBlock<P>>,
    n: Notification,
    replacing_enabled: bool,
    l: int,
    i: int,
) -> bool {
    &&& valid_pos(groups, l, i)
    &&& l < layouts.len()
    &&& meets_layout_criteria(layouts[l], n)
    &&& replaces(window_at(groups, l, i), n, replacing_enabled)
}

/// `w2` is window `w` showing `n` instead; see [`NotifyWindow::replace_notification`].
pub open spec fn is_replacement(w2: NotifyWindow, w: NotifyWindow, n: Notification, resets_timeout: bool) -> bool {
    &&& w2.notification@ == n@
    &&& w2.fuse == (if resets_timeout {
        n.timeout
    } else {
        w.fuse
    })
    &&& w2.dirty
    &&& w2.key == w.key
    &&& w2.marked_for_destroy == w.marked_for_destroy
    &&& w2.update_mode == w.update_mode
    &&& w2.creation_stamp == w.creation_stamp
}

/// What became of an arriving notification.
#[derive(Debug)]
pub enum Arrival {
    /// Do-not-disturb is on: the notification is dropped.
    Ignored,
    /// It replaced the notifications of the windows at these positions, which must be laid
    /// out again.
    Replaced(Vec<(usize, usize)>),
    /// No window shows it yet: it needs a new window in each of these layouts.
    Spawn(Notification, Vec<usize>),
}

/// `n` once more pushed onto history `h`, which keeps at most `cap` notifications (one when
/// `cap` is zero) by dropping its oldest.
pub open spec fn push_capped(h: Seq<Notification>, n: Notification, cap: nat) -> Seq<Notification> {
    let kept = if h.len() + 1 > cap && h.len() > 0 {
        h.subrange(1, h.len() as int)
    } else {
        h
    };
    kept.push(n)
}

/// `ns` pushed onto history `h` in order, capped as [`push_capped`] says.
pub open spec fn push_all_capped(h: Seq<Notification>, ns: Seq<Notification>, cap: nat) -> Seq<
    Notification,
>
    decreases ns.len(),
{
    if ns.len() == 0 {
        h
    } else {
        push_capped(push_all_capped(h, ns.drop_last(), cap), ns.last(), cap)
    }
}

/// Whether `w` is marked for destruction.
pub open spec fn is_marked(w: NotifyWindow) -> bool {
    w.marked_for_destroy
}

/// Whether `w` is not marked for destruction.
pub open spec fn is_kept(w: NotifyWindow) -> bool {
    !w.marked_for_destroy
}

/// All windows, layout by layout, oldest first.
pub open spec fn flat_windows(groups: Seq<LayoutWindows>) -> Seq<NotifyWindow>
    decreases groups.len(),
{
    if groups.len() == 0 {
        Seq::empty()
    } else {
        flat_windows(groups.drop_last()) + groups.last().windows@
    }
}

/// The windows marked for destruction, layout by layout, oldest first.
pub open spec fn flat_marked(groups: Seq<LayoutWindows>) -> Seq<NotifyWindow>
    decreases groups.len(),
{
    if groups.len() == 0 {
        Seq::empty()
    } else {
        flat_marked(groups.drop_last()) + groups.last().windows@.filter(|w: NotifyWindow| is_marked(w))
    }
}

/// Index `q` of `s` comes before index `p` in creation order: it was made earlier, or at
/// the same time but stands first.
pub open spec fn stamp_before(s: Seq<i64>, q: int, p: int) -> bool {
    s[q] < s[p] || (s[q] == s[p] && q < p)
}

/// How many of the first `n` indices of `s` come before index `p` in creation order.
pub open spec fn rank_upto(s: Seq<i64>, p: int, n: int) -> nat
    decreases n,
{
    if n <= 0 {
        0
    } else {
        rank_upto(s, p, n - 1) + (if stamp_before(s, n - 1, p) {
            1nat
        } else {
            0nat
        })
    }
}

/// The place of index `p` of `s` in creation order, from 0.
pub open spec fn stamp_rank(s: Seq<i64>, p: int) -> nat {
    rank_upto(s, p, s.len() as int)
}

/// The creation stamps of all windows, layout by layout.
pub open spec fn flat_stamps(groups: Seq<LayoutWindows>) -> Seq<i64> {
    flat_windows(groups).map_values(|w: NotifyWindow| w.creation_stamp)
}

/// The key of the window that is `num`-th in creation order (from 0, oldest first), if
/// there are more than `num` windows.
pub open spec fn ordered_key(groups: Seq<LayoutWindows>, num: nat) -> Option<u64> {
    let s = flat_windows(groups);
    if exists|p: int| 0 <= p < s.len() && #[trigger] stamp_rank(flat_stamps(groups), p) == num {
        Some(
            s[choose|p: int|
                0 <= p < s.len() && #[trigger] stamp_rank(flat_stamps(groups), p) == num].key,
        )
    } else {
        None
    }
}

/// The key of the window that selector `sel` names: the newest window in creation order,
/// the first window showing a notification identifier, or the `n`-th most recent window
/// (0 being the newest, the one `Latest` names).
pub open spec fn selected_key(groups: Seq<LayoutWindows>, sel: WindowSelector) -> Option<u64> {
    match sel {
        WindowSelector::Latest => if window_total(groups) > 0 {
            ordered_key(groups, (window_total(groups) - 1) as nat)
        } else {
            None
        },
        WindowSelector::Id(id) => if some_where(groups, shows_id(id)) {
            let (l, i) = choose|l: int, i: int| first_where(groups, shows_id(id), l, i);
            Some(window_at(groups, l, i).key)
        } else {
            None
        },
        WindowSelector::Index(n) => if n < window_total(groups) {
            ordered_key(groups, (window_total(groups) - 1 - n) as nat)
        } else {
            None
        },
    }
}

/// `i` is the first index of history `h` holding a notification with identifier `id`.
pub open spec fn first_in_history(h: Seq<Notification>, id: u32, i: int) -> bool {
    0 <= i < h.len() && h[i].id == id && forall|j: int| 0 <= j < i ==> (#[trigger] h[j]).id != id
}

/// What a socket command leaves for the caller to do.
#[derive(Debug)]
pub enum SocketOutcome {
    Done,
    /// Show these notifications again, in new windows, in this order.
    Show(Vec<Notification>),
    /// The result of invoking an action.
    Invoke(ActionTrigger),
}

/// The history never holds more than `cap` notifications (one when `cap` is zero), and
/// after closing windows its newest entry is the notification closed last.
pub proof fn history_stays_capped(h: Seq<Notification>, ns: Seq<Notification>, cap: nat)
    requires
        h.len() <= (if cap == 0 {
            1
        } else {
            cap
        }),
    ensures
        push_all_capped(h, ns, cap).len() <= (if cap == 0 {
            1
        } else {
            cap
        }),
        ns.len() > 0 ==> push_all_capped(h, ns, cap).last() == ns.last(),
    decreases ns.len(),
{
    if ns.len() > 0 {
        history_stays_capped(h, ns.drop_last(), cap);
    }
}

/// Every place in creation order below the number of windows names a window: the `n`
/// windows are numbered from 0 to `n - 1`, each number once.
pub proof fn ordered_places_cover(groups: Seq<LayoutWindows>, num: nat)
    requires
        num < window_total(groups),
    ensures
        ordered_key(groups, num) is Some,
{
    lemma_flat_windows_len(groups);
    let st = flat_stamps(groups);
    let n = st.len() as int;
    let x = set_int_range(0, n);
    let f = |p: int| stamp_rank(st, p) as int;
    lemma_int_range(0, n);
    assert(injective_on(f, x)) by {
        assert forall|a: int, b: int| x.contains(a) && x.contains(b) && #[trigger] f(a) == #[trigger] f(b)
            implies a == b by {
            lemma_rank_unique(st, a);
        }
    }
    let y = x.map(f);
    lemma_map_size(x, y, f);
    assert(y.subset_of(x)) by {
        assert forall|v: int| y.contains(v) implies x.contains(v) by {
            let p = choose|p: int| x.contains(p) && f(p) == v;
            lemma_rank_bound(st, p, n);
        }
    }
    lemma_subset_equality(y, x);
    assert(x.contains(num as int));
    assert(y.contains(num as int));
    let p = choose|p: int| x.contains(p) && f(p) == num as int;
    assert(0 <= p < flat_windows(groups).len() && stamp_rank(flat_stamps(groups), p) == num);
}

/// The windows of all layouts, notifications that were closed, and the manager's modes.
pub struct NotifyWindowManager {
    /// The windows of each layout, in the order of the configured layouts.
    pub layout_windows: Vec<LayoutWindows>,
    /// Closed notifications, oldest first.
    pub history: VecDeque<Notification>,
    /// Whether windows were added, closed or changed size since they were last placed.
    pub dirty: bool,
    /// Whether the daemon is to stop.
    pub should_exit: bool,
    /// Do not disturb: new notifications are dropped.
    pub dnd: bool,
    /// Milliseconds since the user's last input, as last read.
    pub last_idle_time: u64,
}

impl NotifyWindowManager {
    /// Whether do-not-disturb is on.
    pub open spec fn dnd_enabled(&self) -> bool {
        self.dnd
    }

    /// The idle time last recorded, in milliseconds.
    pub open spec fn idle_ms(&self) -> u64 {
        self.last_idle_time
    }

    /// The windows, layout by layout.
    pub open spec fn groups(&self) -> Seq<LayoutWindows> {
        self.layout_windows@
    }

    /// A manager with no window, one empty group per layout name, in order, and an empty
    /// history.
    pub fn new(layout_names: Vec<String>, history_length: usize) -> (m: Self)
        ensures
            m.groups().len() == layout_names@.len(),
            forall|l: int|
                0 <= l < layout_names@.len() ==> (#[trigger] m.groups()[l]).name
                    == layout_names@[l] && m.groups()[l].windows@.len() == 0,
            m.history@.len() == 0,
            !m.dirty,
            !m.should_exit,
            !m.dnd_enabled(),
            m.idle_ms() == 0,
    {
        let mut layout_windows: Vec<LayoutWindows> = Vec::new();
        let mut k: usize = 0;
        while k < layout_names.len()
            invariant
                0 <= k <= layout_names@.len(),
                layout_windows@.len() == k,
                forall|l: int|
                    0 <= l < k ==> (#[trigger] layout_windows@[l]).name == layout_names@[l]
                        && layout_windows@[l].windows@.len() == 0,
            decreases layout_names@.len() - k,
        {
            layout_windows.push(LayoutWindows { name: layout_names[k].clone(), windows: Vec::new() });
            k += 1;
        }
        NotifyWindowManager {
            layout_windows,
            history: VecDeque::with_capacity(history_length),
            dirty: false,
            should_exit: false,
            dnd: false,
            last_idle_time: 0,
        }
    }

    /// The position of the first window with key `key`.
    pub fn find_window_idx(&self, key: u64) -> (r: Option<(usize, usize)>)
        ensures
            r matches Some((l, i)) ==> first_where(self.groups(), has_key(key), l as int, i as int),
            r is None ==> !some_where(self.groups(), has_key(key)),
    {
        let ghost g = self.groups();
        let mut l: usize = 0;
        while l < self.layout_windows.len()
            invariant
                g == self.groups(),
                0 <= l <= g.len(),
                forall|l2: int, i2: int|
                    valid_pos(g, l2, i2) && l2 < l ==> #[trigger] window_at(g, l2, i2).key != key,
            decreases g.len() - l,
        {
            let mut i: usize = 0;
            while i < self.layout_windows[l].windows.len()
                invariant
                    g == self.groups(),
                    0 <= l < g.len(),
                    0 <= i <= g[l as int].windows@.len(),
                    forall|l2: int, i2: int|
                        valid_pos(g, l2, i2) && pos_before(l2, i2, l as int, i as int)
                            ==> #[trigger] window_at(g, l2, i2).key != key,
                decreases g[l as int].windows@.len() - i,
            {
                if self.layout_windows[l].windows[i].key == key {
                    return Some((l, i));
                }
                i += 1;
            }
            l += 1;
        }
        None
    }

    /// The position of the first window showing the notification with identifier `id`.
    pub fn find_notification_idx(&self, id: u32) -> (r: Option<(usize, usize)>)
        ensures
            r matches Some((l, i)) ==> first_where(self.groups(), shows_id(id), l as int, i as int),
            r is None ==> !some_where(self.groups(), shows_id(id)),
    {
        let ghost g = self.groups();
        let mut l: usize = 0;
        while l < self.layout_windows.len()
            invariant
                g == self.groups(),
                0 <= l <= g.len(),
                forall|l2: int, i2: int|
                    valid_pos(g, l2, i2) && l2 < l ==> #[trigger] window_at(g, l2, i2).notification.id
                        != id,
            decreases g.len() - l,
        {
            let mut i: usize = 0;
            while i < self.layout_windows[l].windows.len()
                invariant
                    g == self.groups(),
                    0 <= l < g.len(),
                    0 <= i <= g[l as int].windows@.len(),
                    forall|l2: int, i2: int|
                        valid_pos(g, l2, i2) && pos_before(l2, i2, l as int, i as int)
                            ==> #[trigger] window_at(g, l2, i2).notification.id != id,
                decreases g[l as int].windows@.len() - i,
            {
                if self.layout_windows[l].windows[i].notification.id == id {
                    return Some((l, i));
                }
                i += 1;
            }
            l += 1;
        }
        None
    }

    /// The first window with key `key`.
    pub fn find_window(&self, key: u64) -> (r: Option<&NotifyWindow>)
        ensures
            r matches Some(w) ==> exists|l: int, i: int|
                first_where(self.groups(), has_key(key), l, i) && *w == window_at(
                    self.groups(),
                    l,
                    i,
                ),
            r is None ==> !some_where(self.groups(), has_key(key)),
    {
        match self.find_window_idx(key) {
            Some((l, i)) => Some(&self.layout_windows[l].windows[i]),
            None => None,
        }
    }

    /// The key of the first window showing the notification with identifier `id`.
    pub fn find_window_nid(&self, notification_id: u32) -> (r: Option<u64>)
        ensures
            r matches Some(k) ==> exists|l: int, i: int|
                first_where(self.groups(), shows_id(notification_id), l, i) && k == window_at(
                    self.groups(),
                    l,
                    i,
                ).key,
            r is None ==> !some_where(self.groups(), shows_id(notification_id)),
    {
        match self.find_notification_idx(notification_id) {
            Some((l, i)) => Some(self.layout_windows[l].windows[i].key),
            None => None,
        }
    }

    /// Marks the window at `(l, i)` for destruction.
    fn mark_at(&mut self, l: usize, i: usize)
        requires
            valid_pos(old(self).groups(), l as int, i as int),
        ensures
            same_except(final(self).groups(), old(self).groups(), l as int, i as int),
            window_at(final(self).groups(), l as int, i as int) == marked(
                window_at(old(self).groups(), l as int, i as int),
            ),
            final(self).history == old(self).history,
            final(self).dirty == old(self).dirty,
            final(self).should_exit == old(self).should_exit,
            final(self).dnd_enabled() == old(self).dnd_enabled(),
            final(self).idle_ms() == old(self).idle_ms(),
    {
        self.layout_windows[l].windows[i].marked_for_destroy = true;
    }

    /// Marks the first window with key `key` for destruction, if there is one, and returns
    /// whether there was.
    pub fn drop_window_id(&mut self, key: u64) -> (found: bool)
        ensures
            found == some_where(old(self).groups(), has_key(key)),
            found ==> exists|l: int, i: int|
                first_where(old(self).groups(), has_key(key), l, i) && same_except(
                    final(self).groups(),
                    old(self).groups(),
                    l,
                    i,
                ) && window_at(final(self).groups(), l, i) == marked(
                    window_at(old(self).groups(), l, i),
                ),
            found ==> final(self).dirty,
            !found ==> final(self).groups() == old(self).groups() && final(self).dirty == old(self).dirty,
            final(self).history == old(self).history,
            final(self).should_exit == old(self).should_exit,
            final(self).dnd_enabled() == old(self).dnd_enabled(),
            final(self).idle_ms() == old(self).idle_ms(),
    {
        let ghost g = self.groups();
        match self.find_window_idx(key) {
            Some((l, i)) => {
                self.mark_at(l, i);
                self.dirty = true;
                assert(first_where(g, has_key(key), l as int, i as int) && same_except(
                    self.groups(),
                    g,
                    l as int,
                    i as int,
                ) && window_at(self.groups(), l as int, i as int) == marked(
                    window_at(g, l as int, i as int),
                ));
                true
            },
            None => false,
        }
    }

    /// Marks the first window showing notification `id` for destruction, if there is one, and
    /// returns whether there was.
    pub fn drop_notification(&mut self, id: u32) -> (found: bool)
        ensures
            found == some_where(old(self).groups(), shows_id(id)),
            found ==> exists|l: int, i: int|
                first_where(old(self).groups(), shows_id(id), l, i) && same_except(
                    final(self).groups(),
                    old(self).groups(),
                    l,
                    i,
                ) && window_at(final(self).groups(), l, i) == marked(
                    window_at(old(self).groups(), l, i),
                ),
            found ==> final(self).dirty,
            !found ==> final(self).groups() == old(self).groups() && final(self).dirty == old(self).dirty,
            final(self).history == old(self).history,
            final(self).should_exit == old(self).should_exit,
            final(self).dnd_enabled() == old(self).dnd_enabled(),
            final(self).idle_ms() == old(self).idle_ms(),
    {
        let ghost g = self.groups();
        match self.find_notification_idx(id) {
            Some((l, i)) => {
                self.mark_at(l, i);
                self.dirty = true;
                assert(first_where(g, shows_id(id), l as int, i as int) && same_except(
                    self.groups(),
                    g,
                    l as int,
                    i as int,
                ) && window_at(self.groups(), l as int, i as int) == marked(
                    window_at(g, l as int, i as int),
                ));
                true
            },
            None => false,
        }
    }

    /// Asks the first window with key `key` to be drawn again, if there is one, and returns
    /// whether there was.
    pub fn request_redraw(&mut self, key: u64) -> (found: bool)
        ensures
            found == some_where(old(self).groups(), has_key(key)),
            found ==> exists|l: int, i: int|
                first_where(old(self).groups(), has_key(key), l, i) && same_except(
                    final(self).groups(),
                    old(self).groups(),
                    l,
                    i,
                ) && window_at(final(self).groups(), l, i) == redrawn(
                    window_at(old(self).groups(), l, i),
                ),
            !found ==> final(self).groups() == old(self).groups(),
            final(self).dirty == old(self).dirty,
            final(self).history == old(self).history,
            final(self).should_exit == old(self).should_exit,
            final(self).dnd_enabled() == old(self).dnd_enabled(),
            final(self).idle_ms() == old(self).idle_ms(),
    {
        let ghost g = self.groups();
        match self.find_window_idx(key) {
            Some((l, i)) => {
                self.layout_windows[l].windows[i].dirty = true;
                assert(first_where(g, has_key(key), l as int, i as int) && same_except(
                    self.groups(),
                    g,
                    l as int,
                    i as int,
                ) && window_at(self.groups(), l as int, i as int) == redrawn(
                    window_at(g, l as int, i as int),
                ));
                true
            },
            None => false,
        }
    }

    /// Marks every window for destruction.
    pub fn drop_windows(&mut self)
        ensures
            same_shape(final(self).groups(), old(self).groups()),
            forall|l: int, i: int|
                valid_pos(old(self).groups(), l, i) ==> #[trigger] window_at(
                    final(self).groups(),
                    l,
                    i,
                ) == marked(window_at(old(self).groups(), l, i)),
            final(self).dirty,
            final(self).history == old(self).history,
            final(self).should_exit == old(self).should_exit,
            final(self).dnd_enabled() == old(self).dnd_enabled(),
            final(self).idle_ms() == old(self).idle_ms(),
    {
        let ghost g = self.groups();
        let mut l: usize = 0;
        while l < self.layout_windows.len()
            invariant
                same_shape(self.groups(), g),
                0 <= l <= g.len(),
                forall|l2: int, i2: int|
                    valid_pos(g, l2, i2) ==> #[trigger] window_at(self.groups(), l2, i2) == (if l2
                        < l {
                        marked(window_at(g, l2, i2))
                    } else {
                        window_at(g, l2, i2)
                    }),
                self.history == old(self).history,
                self.dirty == old(self).dirty,
                self.should_exit == old(self).should_exit,
                self.dnd == old(self).dnd,
                self.last_idle_time == old(self).last_idle_time,
            decreases g.len() - l,
        {
            let mut i: usize = 0;
            while i < self.layout_windows[l].windows.len()
                invariant
                    same_shape(self.groups(), g),
                    0 <= l < g.len(),
                    0 <= i <= g[l as int].windows@.len(),
                    forall|l2: int, i2: int|
                        valid_pos(g, l2, i2) ==> #[trigger] window_at(self.groups(), l2, i2) == (
                        if pos_before(l2, i2, l as int, i as int) {
                            marked(window_at(g, l2, i2))
                        } else {
                            window_at(g, l2, i2)
                        }),
                    self.history == old(self).history,
                    self.dirty == old(self).dirty,
                    self.should_exit == old(self).should_exit,
                    self.dnd == old(self).dnd,
                    self.last_idle_time == old(self).last_idle_time,
                decreases g[l as int].windows@.len() - i,
            {
                self.mark_at(l, i);
                i += 1;
            }
            l += 1;
        }
        self.dirty = true;
    }

    /// Whether any layout has a window.
    pub fn has_windows(&self) -> (b: bool)
        ensures
            b == exists|l: int, i: int| valid_pos(self.groups(), l, i),
    {
        let mut l: usize = 0;
        while l < self.layout_windows.len()
            invariant
                0 <= l <= self.groups().len(),
                forall|l2: int, i2: int| #![auto] valid_pos(self.groups(), l2, i2) ==> l2 >= l,
            decreases self.groups().len() - l,
        {
            if self.layout_windows[l].windows.len() > 0 {
                assert(valid_pos(self.groups(), l as int, 0));
                return true;
            }
            l += 1;
        }
        false
    }

    /// Whether the user has been idle for a second or more, by the last reading.
    pub fn is_idle_1s(&self) -> (b: bool)
        ensures
            b == (self.idle_ms() / 1000 >= 1),
    {
        self.last_idle_time / 1000 >= 1
    }

    /// Whether the user has been idle for `threshold` seconds or more, by the last reading.
    pub fn is_idle_for(&self, threshold: u64) -> (b: bool)
        ensures
            b == (self.idle_ms() / 1000 >= threshold),
    {
        self.last_idle_time / 1000 >= threshold
    }

    /// Adds `window` as the newest window of layout `l`; if that makes more than
    /// `max_notifications` windows (when that is not zero), the oldest is marked for
    /// destruction. The windows must be placed again.
    pub fn add_window(&mut self, l: usize, window: NotifyWindow, max_notifications: usize)
        requires
            l < old(self).groups().len(),
        ensures
            final(self).groups().len() == old(self).groups().len(),
            forall|l2: int|
                0 <= l2 < old(self).groups().len() && l2 != l ==> #[trigger] final(self).groups()[l2]
                    == old(self).groups()[l2],
            final(self).groups()[l as int].name == old(self).groups()[l as int].name,
            final(self).groups()[l as int].windows@ == spawned(
                old(self).groups()[l as int].windows@,
                window,
                max_notifications as nat,
            ),
            final(self).dirty,
            final(self).history == old(self).history,
            final(self).should_exit == old(self).should_exit,
            final(self).dnd_enabled() == old(self).dnd_enabled(),
            final(self).idle_ms() == old(self).idle_ms(),
    {
        self.layout_windows[l].windows.push(window);
        let len = self.layout_windows[l].windows.len();
        if max_notifications > 0 && len > max_notifications {
            self.layout_windows[l].windows[0].marked_for_destroy = true;
        }
        self.dirty = true;
    }

    /// Gives `notification` a new window in each layout of `layouts` that draws it, in order,
    /// as [`add_window`](Self::add_window) does: the `j`-th such window gets key
    /// `first_key + j` and creation stamp `stamp`. Returns each new window's layout index and
    /// key, in order. The windows must be placed again if any was made.
    pub fn spawn_windows<P>(
        &mut self,
        notification: &Notification,
        layouts: &Vec<LayoutBlock<P>>,
        max_notifications: usize,
        first_key: u64,
        stamp: i64,
    ) -> (made: Vec<(usize, u64)>)
        requires
            layouts@.len() <= old(self).groups().len(),
            first_key + layouts@.len() <= u64::MAX,
        ensures
            made@.len() == matching_layouts(layouts@, *notification).len(),
            forall|j: int|
                0 <= j < made@.len() ==> #[trigger] made@[j] == (
                    matching_layouts(layouts@, *notification)[j],
                    (first_key + j) as u64,
                ),
            final(self).groups().len() == old(self).groups().len(),
            forall|j: int|
                0 <= j < made@.len() ==> {
                    let l = (#[trigger] made@[j]).0 as int;
                    let ws = final(self).groups()[l].windows@;
                    &&& ws.len() > 0
                    &&& final(self).groups()[l].name == old(self).groups()[l].name
                    &&& ws == spawned(old(self).groups()[l].windows@, ws.last(), max_notifications as nat)
                    &&& fresh_window(ws.last(), (first_key + j) as u64, *notification, stamp)
                },
            forall|l: int|
                0 <= l < old(self).groups().len() && !matching_layouts(layouts@, *notification).contains(
                    l as usize,
                ) ==> #[trigger] final(self).groups()[l] == old(self).groups()[l],
            final(self).dirty == (old(self).dirty || made@.len() > 0),
            final(self).history == old(self).history,
            final(self).should_exit == old(self).should_exit,
            final(self).dnd_enabled() == old(self).dnd_enabled(),
            final(self).idle_ms() == old(self).idle_ms(),
    {
        let ls = layouts_for(notification, layouts);
        let layout_count = layouts.len();
        let ghost m = matching_layouts(layouts@, *notification);
        let ghost g0 = self.groups();
        proof {
            assert(layout_count == layouts@.len());
            lemma_matching_layouts_sorted(layouts@, *notification);
        }
        let mut made: Vec<(usize, u64)> = Vec::new();
        let mut j: usize = 0;
        while j < ls.len()
            invariant
                ls@ == m,
                m == matching_layouts(layouts@, *notification),
                g0 == old(self).groups(),
                layouts@.len() <= g0.len(),
                first_key + layouts@.len() <= u64::MAX,
                m.len() <= layouts@.len(),
                forall|a: int| 0 <= a < m.len() ==> #[trigger] m[a] < layouts@.len(),
                forall|a: int, b: int| 0 <= a < b < m.len() ==> #[trigger] m[a] < #[trigger] m[b],
                0 <= j <= m.len(),
                made@.len() == j,
                forall|a: int| 0 <= a < j ==> #[trigger] made@[a] == (m[a], (first_key + a) as u64),
                self.groups().len() == g0.len(),
                forall|a: int|
                    0 <= a < j ==> {
                        let l = (#[trigger] made@[a]).0 as int;
                        let ws = self.groups()[l].windows@;
                        &&& ws.len() > 0
                        &&& self.groups()[l].name == g0[l].name
                        &&& ws == spawned(g0[l].windows@, ws.last(), max_notifications as nat)
                        &&& fresh_window(ws.last(), (first_key + a) as u64, *notification, stamp)
                    },
                forall|l: int|
                    0 <= l < g0.len() && !m.take(j as int).contains(l as usize)
                        ==> #[trigger] self.groups()[l] == g0[l],
                self.dirty == (old(self).dirty || j > 0),
                self.history == old(self).history,
                self.should_exit == old(self).should_exit,
                self.dnd_enabled() == old(self).dnd_enabled(),
                self.idle_ms() == old(self).idle_ms(),
            decreases m.len() - j,
        {
            let l = ls[j];
            let key = first_key + j as u64;
            let window = NotifyWindow::new(key, notification.duplicate(), stamp);
            let ghost before = self.groups();
            proof {
                assert(!m.take(j as int).contains(l)) by {
                    if m.take(j as int).contains(l) {
                        let a = choose|a: int| 0 <= a < j && m.take(j as int)[a] == l;
                        assert(m[a] < m[j as int]);
                    }
                }
                assert(before[l as int] == g0[l as int]);
            }
            self.add_window(l, window, max_notifications);
            made.push((l, key));
            proof {
                let ws = self.groups()[l as int].windows@;
                let s0 = g0[l as int].windows@.push(window);
                assert(ws.last() == window);
                assert(ws == spawned(g0[l as int].windows@, ws.last(), max_notifications as nat));
                assert forall|a: int| 0 <= a < j + 1 implies {
                    let l2 = (#[trigger] made@[a]).0 as int;
                    let ws2 = self.groups()[l2].windows@;
                    &&& ws2.len() > 0
                    &&& self.groups()[l2].name == g0[l2].name
                    &&& ws2 == spawned(g0[l2].windows@, ws2.last(), max_notifications as nat)
                    &&& fresh_window(ws2.last(), (first_key + a) as u64, *notification, stamp)
                } by {
                    if a < j {
                        assert(made@[a] == (m[a], (first_key + a) as u64));
                        assert(m[a] < m[j as int]);
                        assert(self.groups()[m[a] as int] == before[m[a] as int]);
                    }
                }
                assert forall|l2: int|
                    0 <= l2 < g0.len() && !m.take(j + 1).contains(l2 as usize)
                        implies #[trigger] self.groups()[l2] == g0[l2] by {
                    assert(m.take(j + 1)[j as int] == l);
                    if m.take(j as int).contains(l2 as usize) {
                        let a = choose|a: int| 0 <= a < j && m.take(j as int)[a] == l2 as usize;
                        assert(m.take(j + 1)[a] == l2 as usize);
                    }
                }
            }
            j += 1;
        }
        proof {
            assert(m.take(j as int) =~= m);
        }
        made
    }

    /// Lets `delta_ms` milliseconds pass on the countdown of the window at `(l, i)`; the
    /// windows must be placed again if it ran out. Returns whether it did.
    pub fn burn_fuse_at(&mut self, l: usize, i: usize, delta_ms: i32) -> (expired: bool)
        requires
            valid_pos(old(self).groups(), l as int, i as int),
            delta_ms >= 0,
            window_at(old(self).groups(), l as int, i as int).update_mode.fuse ==> window_at(
                old(self).groups(),
                l as int,
                i as int,
            ).fuse - delta_ms >= i32::MIN,
        ensures
            same_except(final(self).groups(), old(self).groups(), l as int, i as int),
            window_at(final(self).groups(), l as int, i as int) == burnt(
                window_at(old(self).groups(), l as int, i as int),
                delta_ms,
            ),
            expired == fuse_expires(window_at(old(self).groups(), l as int, i as int), delta_ms),
            final(self).dirty == (old(self).dirty || expired),
            final(self).history == old(self).history,
            final(self).should_exit == old(self).should_exit,
            final(self).dnd_enabled() == old(self).dnd_enabled(),
            final(self).idle_ms() == old(self).idle_ms(),
    {
        let expired = self.layout_windows[l].windows[i].burn_fuse(delta_ms);
        self.dirty = self.dirty || expired;
        expired
    }

    /// Ends the frame of the window at `(l, i)`, whose blocks changed or not; returns whether
    /// it must be drawn, in which case the windows must also be placed again.
    pub fn settle_at(&mut self, l: usize, i: usize, blocks_changed: bool) -> (redraw: bool)
        requires
            valid_pos(old(self).groups(), l as int, i as int),
        ensures
            same_except(final(self).groups(), old(self).groups(), l as int, i as int),
            window_at(final(self).groups(), l as int, i as int) == settled(
                window_at(old(self).groups(), l as int, i as int),
            ),
            redraw == needs_redraw(window_at(old(self).groups(), l as int, i as int), blocks_changed),
            final(self).dirty == (old(self).dirty || redraw),
            final(self).history == old(self).history,
            final(self).should_exit == old(self).should_exit,
            final(self).dnd_enabled() == old(self).dnd_enabled(),
            final(self).idle_ms() == old(self).idle_ms(),
    {
        let redraw = self.layout_windows[l].windows[i].settle(blocks_changed);
        self.dirty = self.dirty || redraw;
        redraw
    }

    /// Records a reading of the user's idle time, `idle_ms` milliseconds, and sets every
    /// window's update modes by [`idle_modes`].
    pub fn apply_idle(&mut self, idle_ms: u64, threshold: u64, unpause_on_input: bool)
        ensures
            same_shape(final(self).groups(), old(self).groups()),
            forall|l: int, i: int|
                valid_pos(old(self).groups(), l, i) ==> #[trigger] window_at(
                    final(self).groups(),
                    l,
                    i,
                ) == with_modes(
                    window_at(old(self).groups(), l, i),
                    idle_modes(
                        window_at(old(self).groups(), l, i).update_mode,
                        old(self).idle_ms() / 1000 >= 1,
                        idle_ms,
                        threshold,
                        unpause_on_input,
                    ),
                ),
            final(self).idle_ms() == idle_ms,
            final(self).dirty == old(self).dirty,
            final(self).history == old(self).history,
            final(self).should_exit == old(self).should_exit,
            final(self).dnd_enabled() == old(self).dnd_enabled(),
    {
        let was_idle = self.is_idle_1s();
        let wake = unpause_on_input && was_idle && !(idle_ms / 1000 >= 1);
        let sleep = idle_ms / 1000 >= threshold;
        let ghost g = self.groups();
        let mut l: usize = 0;
        while l < self.layout_windows.len()
            invariant
                same_shape(self.groups(), g),
                0 <= l <= g.len(),
                was_idle == (old(self).idle_ms() / 1000 >= 1),
                wake == (unpause_on_input && was_idle && !(idle_ms / 1000 >= 1)),
                sleep == (idle_ms / 1000 >= threshold),
                forall|l2: int, i2: int|
                    valid_pos(g, l2, i2) ==> #[trigger] window_at(self.groups(), l2, i2) == (if l2
                        < l {
                        with_modes(
                            window_at(g, l2, i2),
                            idle_modes(
                                window_at(g, l2, i2).update_mode,
                                was_idle,
                                idle_ms,
                                threshold,
                                unpause_on_input,
                            ),
                        )
                    } else {
                        window_at(g, l2, i2)
                    }),
                self.history == old(self).history,
                self.dirty == old(self).dirty,
                self.should_exit == old(self).should_exit,
                self.dnd == old(self).dnd,
                self.last_idle_time == old(self).last_idle_time,
            decreases g.len() - l,
        {
            let mut i: usize = 0;
            while i < self.layout_windows[l].windows.len()
                invariant
                    same_shape(self.groups(), g),
                    0 <= l < g.len(),
                    0 <= i <= g[l as int].windows@.len(),
                    was_idle == (old(self).idle_ms() / 1000 >= 1),
                    wake == (unpause_on_input && was_idle && !(idle_ms / 1000 >= 1)),
                    sleep == (idle_ms / 1000 >= threshold),
                    forall|l2: int, i2: int|
                        valid_pos(g, l2, i2) ==> #[trigger] window_at(self.groups(), l2, i2) == (
                        if pos_before(l2, i2, l as int, i as int) {
                            with_modes(
                                window_at(g, l2, i2),
                                idle_modes(
                                    window_at(g, l2, i2).update_mode,
                                    was_idle,
                                    idle_ms,
                                    threshold,
                                    unpause_on_input,
                                ),
                            )
                        } else {
                            window_at(g, l2, i2)
                        }),
                    self.history == old(self).history,
                    self.dirty == old(self).dirty,
                    self.should_exit == old(self).should_exit,
                    self.dnd == old(self).dnd,
                    self.last_idle_time == old(self).last_idle_time,
                decreases g[l as int].windows@.len() - i,
            {
                if sleep {
                    self.layout_windows[l].windows[i].update_mode = UpdateModes::draw_mode();
                } else if wake {
                    self.layout_windows[l].windows[i].update_mode = UpdateModes::all();
                }
                i += 1;
            }
            l += 1;
        }
        self.last_idle_time = idle_ms;
    }

    /// Where each window of each layout goes when the windows are placed.
    pub fn placement_plan(&self) -> (r: Vec<Vec<Placement>>)
        ensures
            r@.len() == self.groups().len(),
            forall|l: int|
                0 <= l < r@.len() ==> (#[trigger] r@[l])@.len() == self.groups()[l].windows@.len(),
            forall|l: int, i: int|
                valid_pos(self.groups(), l, i) ==> #[trigger] r@[l]@[i] == placement_of(
                    self.groups()[l].windows@,
                    i,
                ),
    {
        let mut r: Vec<Vec<Placement>> = Vec::new();
        let mut l: usize = 0;
        while l < self.layout_windows.len()
            invariant
                0 <= l <= self.groups().len(),
                r@.len() == l,
                forall|l2: int|
                    0 <= l2 < l ==> (#[trigger] r@[l2])@.len() == self.groups()[l2].windows@.len(),
                forall|l2: int, i2: int|
                    valid_pos(self.groups(), l2, i2) && l2 < l ==> #[trigger] r@[l2]@[i2]
                        == placement_of(self.groups()[l2].windows@, i2),
            decreases self.groups().len() - l,
        {
            let ghost ws = self.groups()[l as int].windows@;
            let mut row: Vec<Placement> = Vec::new();
            let mut seen = false;
            let mut i: usize = 0;
            while i < self.layout_windows[l].windows.len()
                invariant
                    0 <= l < self.groups().len(),
                    ws == self.groups()[l as int].windows@,
                    0 <= i <= ws.len(),
                    row@.len() == i,
                    seen == exists|j: int| 0 <= j < i && !(#[trigger] ws[j]).marked_for_destroy,
                    forall|i2: int| 0 <= i2 < i ==> #[trigger] row@[i2] == placement_of(ws, i2),
                decreases ws.len() - i,
            {
                let p = if self.layout_windows[l].windows[i].marked_for_destroy {
                    Placement::Skip
                } else if seen {
                    Placement::Previous
                } else {
                    Placement::Monitor
                };
                if !self.layout_windows[l].windows[i].marked_for_destroy {
                    seen = true;
                }
                row.push(p);
                i += 1;
            }
            r.push(row);
            l += 1;
        }
        r
    }

    /// Handles an arriving notification: dropped under do-not-disturb; otherwise it replaces
    /// the notification of every window that [`replace_target`] says it does, restarting
    /// their countdown if `resets_timeout`; and if there is none, it is handed back with the
    /// layouts that should each give it a new window.
    #[verifier::spinoff_prover]
    pub fn replace_or_spawn<P>(
        &mut self,
        notification: Notification,
        layouts: &Vec<LayoutBlock<P>>,
        replacing_enabled: bool,
        resets_timeout: bool,
    ) -> (r: Arrival)
        ensures
            final(self).dirty == old(self).dirty,
            final(self).history == old(self).history,
            final(self).should_exit == old(self).should_exit,
            final(self).dnd_enabled() == old(self).dnd_enabled(),
            final(self).idle_ms() == old(self).idle_ms(),
            old(self).dnd_enabled() ==> r is Ignored && final(self).groups() == old(self).groups(),
            !old(self).dnd_enabled() ==> match r {
                Arrival::Ignored => false,
                Arrival::Replaced(ps) => {
                    &&& ps@.len() > 0
                    &&& forall|k: int|
                        0 <= k < ps@.len() ==> replace_target(
                            old(self).groups(),
                            layouts@,
                            notification,
                            replacing_enabled,
                            (#[trigger] ps@[k]).0 as int,
                            ps@[k].1 as int,
                        )
                    &&& forall|k: int, k2: int|
                        0 <= k < k2 < ps@.len() ==> pos_before(
                            (#[trigger] ps@[k]).0 as int,
                            ps@[k].1 as int,
                            (#[trigger] ps@[k2]).0 as int,
                            ps@[k2].1 as int,
                        )
                    &&& forall|l: int, i: int|
                        #[trigger] replace_target(
                            old(self).groups(),
                            layouts@,
                            notification,
                            replacing_enabled,
                            l,
                            i,
                        ) ==> exists|k: int| 0 <= k < ps@.len() && ps@[k] == (l as usize, i as usize)
                    &&& same_shape(final(self).groups(), old(self).groups())
                    &&& forall|l: int, i: int|
                        valid_pos(old(self).groups(), l, i) ==> if replace_target(
                            old(self).groups(),
                            layouts@,
                            notification,
                            replacing_enabled,
                            l,
                            i,
                        ) {
                            is_replacement(
                                #[trigger] window_at(final(self).groups(), l, i),
                                window_at(old(self).groups(), l, i),
                                notification,
                                resets_timeout,
                            )
                        } else {
                            window_at(final(self).groups(), l, i) == window_at(
                                old(self).groups(),
                                l,
                                i,
                            )
                        }
                },
                Arrival::Spawn(n, ls) => {
                    &&& n == notification
                    &&& ls@ == matching_layouts(layouts@, notification)
                    &&& final(self).groups() == old(self).groups()
                    &&& forall|l: int, i: int|
                        !replace_target(
                            old(self).groups(),
                            layouts@,
                            notification,
                            replacing_enabled,
                            l,
                            i,
                        )
                },
            },
    {
        if self.dnd {
            return Arrival::Ignored;
        }
        let ghost g = self.groups();
        let mut ps: Vec<(usize, usize)> = Vec::new();
        let mut l: usize = 0;
        while l < self.layout_windows.len()
            invariant
                same_shape(self.groups(), g),
                0 <= l <= g.len(),
                forall|k: int|
                    0 <= k < ps@.len() ==> replace_target(
                        g,
                        layouts@,
                        notification,
                        replacing_enabled,
                        (#[trigger] ps@[k]).0 as int,
                        ps@[k].1 as int,
                    ) && ps@[k].0 < l,
                forall|k: int, k2: int|
                    0 <= k < k2 < ps@.len() ==> pos_before(
                        (#[trigger] ps@[k]).0 as int,
                        ps@[k].1 as int,
                        (#[trigger] ps@[k2]).0 as int,
                        ps@[k2].1 as int,
                    ),
                forall|l2: int, i2: int|
                    #[trigger] replace_target(g, layouts@, notification, replacing_enabled, l2, i2)
                        && l2 < l ==> exists|k: int|
                        0 <= k < ps@.len() && ps@[k] == (l2 as usize, i2 as usize),
                forall|l2: int, i2: int|
                    valid_pos(g, l2, i2) ==> if l2 < l && replace_target(
                        g,
                        layouts@,
                        notification,
                        replacing_enabled,
                        l2,
                        i2,
                    ) {
                        is_replacement(
                            #[trigger] window_at(self.groups(), l2, i2),
                            window_at(g, l2, i2),
                            notification,
                            resets_timeout,
                        )
                    } else {
                        window_at(self.groups(), l2, i2) == window_at(g, l2, i2)
                    },
                ps@.len() == 0 ==> self.groups() == g,
                self.history == old(self).history,
                self.dirty == old(self).dirty,
                self.should_exit == old(self).should_exit,
                self.dnd == old(self).dnd,
                self.last_idle_time == old(self).last_idle_time,
            decreases g.len() - l,
        {
            let drawn = l < layouts.len() && notification_meets_layout_criteria(
                &layouts[l],
                &notification,
            );
            let mut i: usize = 0;
            while i < self.layout_windows[l].windows.len()
                invariant
                    same_shape(self.groups(), g),
                    0 <= l < g.len(),
                    0 <= i <= g[l as int].windows@.len(),
                    drawn == (l < layouts@.len() && meets_layout_criteria(
                        layouts@[l as int],
                        notification,
                    )),
                    forall|k: int|
                        0 <= k < ps@.len() ==> replace_target(
                            g,
                            layouts@,
                            notification,
                            replacing_enabled,
                            (#[trigger] ps@[k]).0 as int,
                            ps@[k].1 as int,
                        ) && pos_before(ps@[k].0 as int, ps@[k].1 as int, l as int, i as int),
                    forall|k: int, k2: int|
                        0 <= k < k2 < ps@.len() ==> pos_before(
                            (#[trigger] ps@[k]).0 as int,
                            ps@[k].1 as int,
                            (#[trigger] ps@[k2]).0 as int,
                            ps@[k2].1 as int,
                        ),
                    forall|l2: int, i2: int|
                        #[trigger] replace_target(
                            g,
                            layouts@,
                            notification,
                            replacing_enabled,
                            l2,
                            i2,
                        ) && pos_before(l2, i2, l as int, i as int) ==> exists|k: int|
                            0 <= k < ps@.len() && ps@[k] == (l2 as usize, i2 as usize),
                    forall|l2: int, i2: int|
                        valid_pos(g, l2, i2) ==> if pos_before(l2, i2, l as int, i as int)
                            && replace_target(
                            g,
                            layouts@,
                            notification,
                            replacing_enabled,
                            l2,
                            i2,
                        ) {
                            is_replacement(
                                #[trigger] window_at(self.groups(), l2, i2),
                                window_at(g, l2, i2),
                                notification,
                                resets_timeout,
                            )
                        } else {
                            window_at(self.groups(), l2, i2) == window_at(g, l2, i2)
                        },
                    ps@.len() == 0 ==> self.groups() == g,
                    self.history == old(self).history,
                    self.dirty == old(self).dirty,
                    self.should_exit == old(self).should_exit,
                    self.dnd == old(self).dnd,
                    self.last_idle_time == old(self).last_idle_time,
                decreases g[l as int].windows@.len() - i,
            {
                let ghost w0 = window_at(g, l as int, i as int);
                let w = &self.layout_windows[l].windows[i];
                assert(*w == window_at(self.groups(), l as int, i as int));
                assert(*w == w0);
                let same_id = w.notification.id == notification.id && replacing_enabled;
                let same_tag = w.notification.app_name == notification.app_name && match (
                    &w.notification.tag,
                    &notification.tag,
                ) {
                    (Some(a), Some(b)) => *a == *b,
                    _ => false,
                };
                let target = drawn && (same_id || same_tag);
                let ghost ps_old = ps@;
                if target {
                    assert(replace_target(
                        g,
                        layouts@,
                        notification,
                        replacing_enabled,
                        l as int,
                        i as int,
                    ));
                    let copy = notification.duplicate();
                    self.layout_windows[l].windows[i].replace_notification(copy, resets_timeout);
                    ps.push((l, i));
                    assert(ps@[ps@.len() - 1] == (l, i));
                } else {
                    assert(!replace_target(
                        g,
                        layouts@,
                        notification,
                        replacing_enabled,
                        l as int,
                        i as int,
                    ));
                }
                proof {
                    assert forall|l2: int, i2: int|
                        #[trigger] replace_target(
                            g,
                            layouts@,
                            notification,
                            replacing_enabled,
                            l2,
                            i2,
                        ) && pos_before(l2, i2, l as int, i + 1) implies exists|k: int|
                        0 <= k < ps@.len() && ps@[k] == (l2 as usize, i2 as usize) by {
                        if pos_before(l2, i2, l as int, i as int) {
                            let k = choose|k: int|
                                0 <= k < ps_old.len() && ps_old[k] == (l2 as usize, i2 as usize);
                            assert(ps@[k] == ps_old[k]);
                        } else {
                            assert(ps@[ps@.len() - 1] == (l2 as usize, i2 as usize));
                        }
                    }
                }
                i += 1;
            }
            l += 1;
        }
        if ps.len() > 0 {
            proof {
                assert forall|l2: int, i2: int|
                    #[trigger] replace_target(
                        g,
                        layouts@,
                        notification,
                        replacing_enabled,
                        l2,
                        i2,
                    ) implies exists|k: int|
                    0 <= k < ps@.len() && ps@[k] == (l2 as usize, i2 as usize) by {
                    assert(l2 < l);
                }
                assert(same_shape(self.groups(), g));
                assert(forall|k: int|
                    0 <= k < ps@.len() ==> replace_target(
                        g,
                        layouts@,
                        notification,
                        replacing_enabled,
                        (#[trigger] ps@[k]).0 as int,
                        ps@[k].1 as int,
                    ));
            }
            Arrival::Replaced(ps)
        } else {
            let ls = layouts_for(&notification, layouts);
            proof {
                assert forall|l2: int, i2: int|
                    !replace_target(g, layouts@, notification, replacing_enabled, l2, i2) by {
                    if replace_target(g, layouts@, notification, replacing_enabled, l2, i2) {
                        assert(l2 < l);
                    }
                }
            }
            Arrival::Spawn(notification, ls)
        }
    }

    /// Ends a round of placing the windows: every window marked for destruction is removed,
    /// layout by layout, oldest first, and its notification goes to the history, which
    /// keeps at most `history_length` notifications (one when that is zero) by forgetting
    /// the oldest. Returns the key and notification identifier of each removed window, in
    /// that order.
    pub fn retire_marked(&mut self, history_length: usize) -> (closed: Vec<(u64, u32)>)
        ensures
            final(self).groups().len() == old(self).groups().len(),
            forall|l: int|
                0 <= l < old(self).groups().len() ==> (#[trigger] final(self).groups()[l]).name
                    == old(self).groups()[l].name && final(self).groups()[l].windows@ == old(
                    self,
                ).groups()[l].windows@.filter(|w: NotifyWindow| is_kept(w)),
            final(self).history@ == push_all_capped(
                old(self).history@,
                flat_marked(old(self).groups()).map_values(|w: NotifyWindow| w.notification),
                history_length as nat,
            ),
            closed@ == flat_marked(old(self).groups()).map_values(
                |w: NotifyWindow| (w.key, w.notification.id),
            ),
            !final(self).dirty,
            final(self).should_exit == old(self).should_exit,
            final(self).dnd_enabled() == old(self).dnd_enabled(),
            final(self).idle_ms() == old(self).idle_ms(),
    {
        let ghost g = self.groups();
        let ghost h0 = self.history@;
        let ghost cap = history_length as nat;
        let mut closed: Vec<(u64, u32)> = Vec::new();
        let mut l: usize = 0;
        proof {
            assert(g.take(0) =~= Seq::<LayoutWindows>::empty());
            assert(flat_marked(g.take(0)) =~= Seq::<NotifyWindow>::empty());
            assert(flat_marked(g.take(0)).map_values(|w: NotifyWindow| w.notification)
                =~= Seq::<Notification>::empty());
            assert(closed@ =~= flat_marked(g.take(0)).map_values(
                |w: NotifyWindow| (w.key, w.notification.id),
            ));
        }
        while l < self.layout_windows.len()
            invariant
                self.groups().len() == g.len(),
                0 <= l <= g.len(),
                forall|l2: int|
                    0 <= l2 < l ==> (#[trigger] self.groups()[l2]).name == g[l2].name
                        && self.groups()[l2].windows@ == g[l2].windows@.filter(
                        |w: NotifyWindow| is_kept(w),
                    ),
                forall|l2: int| l <= l2 < g.len() ==> #[trigger] self.groups()[l2] == g[l2],
                self.history@ == push_all_capped(
                    h0,
                    flat_marked(g.take(l as int)).map_values(|w: NotifyWindow| w.notification),
                    cap,
                ),
                closed@ == flat_marked(g.take(l as int)).map_values(
                    |w: NotifyWindow| (w.key, w.notification.id),
                ),
                cap == history_length as nat,
                self.should_exit == old(self).should_exit,
                self.dnd == old(self).dnd,
                self.last_idle_time == old(self).last_idle_time,
            decreases g.len() - l,
        {
            let mut ws: Vec<NotifyWindow> = Vec::new();
            std::mem::swap(&mut ws, &mut self.layout_windows[l].windows);
            let ghost ws0 = ws@;
            assert(ws0 == g[l as int].windows@);
            let ghost hl = self.history@;
            let ghost cl = closed@;
            let ghost fm = flat_marked(g.take(l as int));
            let mut kept: Vec<NotifyWindow> = Vec::new();
            proof {
                assert(ws0.take(0) =~= Seq::<NotifyWindow>::empty());
                reveal(Seq::filter);
                assert(ws0.take(0).filter(|w: NotifyWindow| is_kept(w)) =~= kept@);
                assert(ws0.take(0).filter(|w: NotifyWindow| is_marked(w)).map_values(
                    |w: NotifyWindow| w.notification,
                ) =~= Seq::<Notification>::empty());
                assert(cl + ws0.take(0).filter(|w: NotifyWindow| is_marked(w)).map_values(
                    |w: NotifyWindow| (w.key, w.notification.id),
                ) =~= cl);
                assert(ws@ =~= ws0.skip(0));
            }
            while ws.len() > 0
                invariant
                    0 <= l < g.len(),
                    self.groups().len() == g.len(),
                    forall|l2: int|
                        0 <= l2 < l ==> (#[trigger] self.groups()[l2]).name == g[l2].name
                            && self.groups()[l2].windows@ == g[l2].windows@.filter(
                            |w: NotifyWindow| is_kept(w),
                        ),
                    forall|l2: int| l < l2 < g.len() ==> #[trigger] self.groups()[l2] == g[l2],
                    self.groups()[l as int].name == g[l as int].name,
                    ws0 == g[l as int].windows@,
                    ws@.len() <= ws0.len(),
                    ws@ == ws0.skip(ws0.len() - ws@.len()),
                    kept@ == ws0.take(ws0.len() - ws@.len()).filter(|w: NotifyWindow| is_kept(w)),
                    self.history@ == push_all_capped(
                        hl,
                        ws0.take(ws0.len() - ws@.len()).filter(|w: NotifyWindow| is_marked(w)).map_values(
                            |w: NotifyWindow| w.notification,
                        ),
                        cap,
                    ),
                    closed@ == cl + ws0.take(ws0.len() - ws@.len()).filter(
                        |w: NotifyWindow| is_marked(w),
                    ).map_values(|w: NotifyWindow| (w.key, w.notification.id)),
                    cap == history_length as nat,
                    self.should_exit == old(self).should_exit,
                    self.dnd == old(self).dnd,
                    self.last_idle_time == old(self).last_idle_time,
                decreases ws@.len(),
            {
                let ghost k = ws0.len() - ws@.len();
                let w = ws.remove(0);
                proof {
                    assert(w == ws0[k]);
                    assert(ws@ =~= ws0.skip(k + 1));
                    assert(ws0.take(k + 1) =~= ws0.take(k).push(w));
                    lemma_filter_push(ws0.take(k), w, |v: NotifyWindow| is_kept(v));
                    lemma_filter_push(ws0.take(k), w, |v: NotifyWindow| is_marked(v));
                }
                if w.marked_for_destroy {
                    let ghost before = self.history@;
                    closed.push((w.key, w.notification.id));
                    if self.history.len() >= history_length {
                        self.history.pop_front();
                    }
                    self.history.push_back(w.notification);
                    proof {
                        let ms = ws0.take(k).filter(|v: NotifyWindow| is_marked(v));
                        let ns = ms.map_values(|v: NotifyWindow| v.notification);
                        assert(ms.push(w).map_values(|v: NotifyWindow| v.notification) =~= ns.push(
                            w.notification,
                        ));
                        assert(ns.push(w.notification).drop_last() =~= ns);
                        assert(self.history@ =~= push_capped(before, w.notification, cap));
                        assert(closed@ =~= cl + ms.push(w).map_values(
                            |v: NotifyWindow| (v.key, v.notification.id),
                        ));
                    }
                } else {
                    kept.push(w);
                }
            }
            proof {
                assert(ws0.take(ws0.len() as int) =~= ws0);
            }
            std::mem::swap(&mut kept, &mut self.layout_windows[l].windows);
            proof {
                let ms = ws0.filter(|v: NotifyWindow| is_marked(v));
                assert(g.take(l + 1).drop_last() =~= g.take(l as int));
                assert(flat_marked(g.take(l + 1)) == fm + ms);
                lemma_push_all_capped_append(
                    h0,
                    fm.map_values(|w: NotifyWindow| w.notification),
                    ms.map_values(|w: NotifyWindow| w.notification),
                    cap,
                );
                assert((fm + ms).map_values(|w: NotifyWindow| w.notification) =~= fm.map_values(
                    |w: NotifyWindow| w.notification,
                ) + ms.map_values(|w: NotifyWindow| w.notification));
                assert((fm + ms).map_values(|w: NotifyWindow| (w.key, w.notification.id))
                    =~= fm.map_values(|w: NotifyWindow| (w.key, w.notification.id)) + ms.map_values(
                    |w: NotifyWindow| (w.key, w.notification.id),
                ));
            }
            l += 1;
        }
        proof {
            assert(g.take(g.len() as int) =~= g);
        }
        self.dirty = false;
        closed
    }

    /// The number of windows.
    pub fn window_count(&self) -> (n: usize)
        requires
            window_total(self.groups()) <= usize::MAX,
        ensures
            n == window_total(self.groups()),
    {
        let ghost g = self.groups();
        let mut n: usize = 0;
        let mut l: usize = 0;
        proof {
            assert(g.take(0) =~= Seq::<LayoutWindows>::empty());
        }
        while l < self.layout_windows.len()
            invariant
                g == self.groups(),
                window_total(g) <= usize::MAX,
                0 <= l <= g.len(),
                n == window_total(g.take(l as int)),
            decreases g.len() - l,
        {
            proof {
                assert(g.take(l + 1).drop_last() =~= g.take(l as int));
                lemma_window_total_prefix(g, l + 1);
            }
            n = n + self.layout_windows[l].windows.len();
            l += 1;
        }
        proof {
            assert(g.take(l as int) =~= g);
        }
        n
    }

    /// The key of the window that is `num`-th in creation order (from 0, oldest first;
    /// windows made at the same time in the order of their layouts), if there are more than
    /// `num` windows.
    pub fn find_window_ordered(&self, num: usize) -> (r: Option<u64>)
        ensures
            r == ordered_key(self.groups(), num as nat),
    {
        let ghost g = self.groups();
        let mut entries: Vec<(i64, u64)> = Vec::new();
        let mut l: usize = 0;
        proof {
            assert(g.take(0) =~= Seq::<LayoutWindows>::empty());
            assert(entries@ =~= flat_windows(g.take(0)).map_values(
                |w: NotifyWindow| (w.creation_stamp, w.key),
            ));
        }
        while l < self.layout_windows.len()
            invariant
                g == self.groups(),
                0 <= l <= g.len(),
                entries@ == flat_windows(g.take(l as int)).map_values(
                    |w: NotifyWindow| (w.creation_stamp, w.key),
                ),
            decreases g.len() - l,
        {
            let ghost before = entries@;
            let mut i: usize = 0;
            while i < self.layout_windows[l].windows.len()
                invariant
                    g == self.groups(),
                    0 <= l < g.len(),
                    0 <= i <= g[l as int].windows@.len(),
                    before == flat_windows(g.take(l as int)).map_values(
                        |w: NotifyWindow| (w.creation_stamp, w.key),
                    ),
                    entries@ == before + g[l as int].windows@.take(i as int).map_values(
                        |w: NotifyWindow| (w.creation_stamp, w.key),
                    ),
                decreases g[l as int].windows@.len() - i,
            {
                let w = &self.layout_windows[l].windows[i];
                entries.push((w.creation_stamp, w.key));
                proof {
                    assert(g[l as int].windows@.take(i + 1) =~= g[l as int].windows@.take(
                        i as int,
                    ).push(*w));
                    assert(entries@ =~= before + g[l as int].windows@.take(i + 1).map_values(
                        |w: NotifyWindow| (w.creation_stamp, w.key),
                    ));
                }
                i += 1;
            }
            proof {
                assert(g.take(l + 1).drop_last() =~= g.take(l as int));
                assert(g[l as int].windows@.take(i as int) =~= g[l as int].windows@);
                assert(flat_windows(g.take(l + 1)) == flat_windows(g.take(l as int))
                    + g[l as int].windows@);
                assert(entries@ =~= flat_windows(g.take(l + 1)).map_values(
                    |w: NotifyWindow| (w.creation_stamp, w.key),
                ));
            }
            l += 1;
        }
        proof {
            assert(g.take(l as int) =~= g);
        }
        let ghost fw = flat_windows(g);
        let ghost st = flat_stamps(g);
        proof {
            assert(st.len() == entries@.len());
            assert forall|q: int| 0 <= q < st.len() implies #[trigger] st[q] == entries@[q].0 by {}
        }
        let n = entries.len();
        let mut p: usize = 0;
        while p < n
            invariant
                g == self.groups(),
                n == entries@.len(),
                fw == flat_windows(g),
                st == flat_stamps(g),
                st.len() == n,
                forall|q: int| 0 <= q < n ==> #[trigger] st[q] == entries@[q].0,
                forall|q: int| 0 <= q < n ==> #[trigger] fw[q].key == entries@[q].1,
                fw.len() == n,
                0 <= p <= n,
                forall|q: int| 0 <= q < p ==> #[trigger] stamp_rank(st, q) != num,
            decreases n - p,
        {
            let mut count: usize = 0;
            let mut q: usize = 0;
            while q < n
                invariant
                    n == entries@.len(),
                    st.len() == n,
                    forall|q2: int| 0 <= q2 < n ==> #[trigger] st[q2] == entries@[q2].0,
                    0 <= p < n,
                    0 <= q <= n,
                    count <= q,
                    count == rank_upto(st, p as int, q as int),
                decreases n - q,
            {
                let sq = entries[q].0;
                let sp = entries[p].0;
                if sq < sp || (sq == sp && q < p) {
                    count += 1;
                }
                q += 1;
            }
            if count == num {
                proof {
                    assert(stamp_rank(st, p as int) == num);
                    lemma_rank_unique(st, p as int);
                    assert(0 <= p < fw.len() && stamp_rank(flat_stamps(g), p as int) == num);
                    let c = choose|c: int|
                        0 <= c < fw.len() && #[trigger] stamp_rank(flat_stamps(g), c) == num;
                    assert(c == p);
                    assert(ordered_key(g, num as nat) == Some(fw[p as int].key));
                    assert(entries@[p as int].1 == fw[p as int].key);
                }
                return Some(entries[p].1);
            }
            p += 1;
        }
        None
    }

    /// The key of the window that `sel` names; see [`selected_key`].
    pub fn get_window_id(&self, sel: WindowSelector) -> (r: Result<u64, CLIError>)
        requires
            window_total(self.groups()) <= usize::MAX,
        ensures
            r matches Ok(k) ==> selected_key(self.groups(), sel) == Some(k),
            r matches Err(e) ==> selected_key(self.groups(), sel) is None && e
                == CLIError::NotificationNotFound,
    {
        let found = match sel {
            WindowSelector::Latest => {
                let count = self.window_count();
                if count > 0 {
                    self.find_window_ordered(count - 1)
                } else {
                    None
                }
            },
            WindowSelector::Id(id) => {
                let r = self.find_window_nid(id);
                proof {
                    if some_where(self.groups(), shows_id(id)) {
                        let (l, i) = choose|l: int, i: int|
                            first_where(self.groups(), shows_id(id), l, i);
                        let (lw, iw) = choose|l2: int, i2: int|
                            valid_pos(self.groups(), l2, i2) && shows_id(id)(
                                #[trigger] window_at(self.groups(), l2, i2),
                            );
                        lemma_some_has_first(self.groups(), shows_id(id), lw, iw);
                        lemma_first_where_unique(self.groups(), shows_id(id), l, i);
                    }
                }
                r
            },
            WindowSelector::Index(n) => {
                let count = self.window_count();
                if n < count {
                    self.find_window_ordered(count - 1 - n)
                } else {
                    None
                }
            },
        };
        match found {
            Some(k) => Ok(k),
            None => Err(CLIError::NotificationNotFound),
        }
    }

    /// Takes out of the history the oldest notification with identifier `id`, if there is one.
    pub fn take_from_history(&mut self, id: u32) -> (r: Option<Notification>)
        ensures
            r matches Some(n) ==> exists|i: int|
                first_in_history(old(self).history@, id, i) && n == old(self).history@[i]
                    && final(self).history@ == old(self).history@.remove(i),
            r is None ==> (forall|i: int|
                0 <= i < old(self).history@.len() ==> (#[trigger] old(self).history@[i]).id != id)
                && final(self).history@ == old(self).history@,
            final(self).groups() == old(self).groups(),
            final(self).dirty == old(self).dirty,
            final(self).should_exit == old(self).should_exit,
            final(self).dnd_enabled() == old(self).dnd_enabled(),
            final(self).idle_ms() == old(self).idle_ms(),
    {
        let mut i: usize = 0;
        while i < self.history.len()
            invariant
                self.history@ == old(self).history@,
                self.layout_windows == old(self).layout_windows,
                self.dirty == old(self).dirty,
                self.dnd == old(self).dnd,
                self.should_exit == old(self).should_exit,
                self.last_idle_time == old(self).last_idle_time,
                0 <= i <= self.history@.len(),
                forall|j: int| 0 <= j < i ==> (#[trigger] self.history@[j]).id != id,
            decreases self.history@.len() - i,
        {
            if self.history[i].id == id {
                let ghost h = self.history@;
                let n = self.history.remove(i);
                proof {
                    assert(first_in_history(h, id, i as int));
                }
                return n;
            }
            i += 1;
        }
        None
    }

    /// Carries out a command read from the socket; see [`SocketCommand`]. Closing a window or
    /// invoking an action needs the window that the selector names, showing a notification
    /// again needs it in the history, and invoking an action needs a slot number.
    pub fn handle_socket_command(&mut self, cmd: SocketCommand) -> (r: Result<SocketOutcome, CLIError>)
        requires
            window_total(old(self).groups()) <= usize::MAX,
        ensures
            final(self).idle_ms() == old(self).idle_ms(),
            match cmd {
                SocketCommand::DropAll => r matches Ok(SocketOutcome::Done) && final(self).dirty
                    && same_shape(final(self).groups(), old(self).groups()) && (forall|l: int, i: int|
                    valid_pos(old(self).groups(), l, i) ==> #[trigger] window_at(
                        final(self).groups(),
                        l,
                        i,
                    ) == marked(window_at(old(self).groups(), l, i))) && final(self).history
                    == old(self).history && final(self).dnd_enabled() == old(self).dnd_enabled()
                    && final(self).should_exit == old(self).should_exit,
                SocketCommand::Drop(sel) => final(self).history == old(self).history && final(
                    self).dnd_enabled() == old(self).dnd_enabled() && final(self).should_exit
                    == old(self).should_exit && match selected_key(old(self).groups(), sel) {
                    None => r matches Err(e) && e == CLIError::NotificationNotFound && final(
                        self).groups() == old(self).groups() && final(self).dirty == old(
                        self).dirty,
                    Some(k) => r matches Ok(SocketOutcome::Done) && final(self).dirty && exists|
                        l: int,
                        i: int,
                    |
                        first_where(old(self).groups(), has_key(k), l, i) && same_except(
                            final(self).groups(),
                            old(self).groups(),
                            l,
                            i,
                        ) && window_at(final(self).groups(), l, i) == marked(
                            window_at(old(self).groups(), l, i),
                        ),
                },
                SocketCommand::Action(sel, a) => final(self).groups() == old(self).groups()
                    && final(self).dirty == old(self).dirty && final(self).history == old(
                    self).history && final(self).dnd_enabled() == old(self).dnd_enabled()
                    && final(self).should_exit == old(self).should_exit && match selected_key(
                    old(self).groups(),
                    sel,
                ) {
                    None => r matches Err(e) && e == CLIError::NotificationNotFound,
                    Some(k) => match usize_numeral(a@) {
                        None => r matches Err(e) && e == CLIError::Parse(not_usize_message()),
                        Some(slot) => r matches Ok(SocketOutcome::Invoke(t)) && trigger_matches(
                            t,
                            action_trigger_of(old(self).groups(), k, slot),
                        ),
                    },
                },
                SocketCommand::ShowId(id) => final(self).groups() == old(self).groups() && final(
                    self).dirty == old(self).dirty && final(self).dnd_enabled() == old(
                    self).dnd_enabled() && final(self).should_exit == old(self).should_exit && (
                if exists|i: int| 0 <= i < old(self).history@.len() && (#[trigger] old(
                    self).history@[i]).id == id {
                    r matches Ok(SocketOutcome::Show(ns)) && exists|i: int|
                        first_in_history(old(self).history@, id, i) && ns@ == seq![
                            old(self).history@[i],
                        ] && final(self).history@ == old(self).history@.remove(i)
                } else {
                    r matches Err(e) && e == CLIError::NotificationNotFound && final(self).history@
                        == old(self).history@
                }),
                SocketCommand::ShowLast(num) => final(self).groups() == old(self).groups() && final(
                    self).dirty == old(self).dirty && final(self).dnd_enabled() == old(
                    self).dnd_enabled() && final(self).should_exit == old(self).should_exit && {
                    let h = old(self).history@;
                    let m = if num < h.len() {
                        num as int
                    } else {
                        h.len() as int
                    };
                    &&& final(self).history@ == h.take(h.len() - m)
                    &&& r matches Ok(SocketOutcome::Show(ns)) && ns@ == h.skip(h.len() - m).reverse()
                },
                SocketCommand::Dnd(setting) => r matches Ok(SocketOutcome::Done) && final(
                    self).groups() == old(self).groups() && final(self).dirty == old(self).dirty
                    && final(self).history == old(self).history && final(self).should_exit == old(
                    self).should_exit && final(self).dnd_enabled() == (match setting {
                    Some(b) => b,
                    None => old(self).dnd_enabled(),
                }),
                SocketCommand::Kill => r matches Ok(SocketOutcome::Done) && final(self).should_exit
                    && final(self).groups() == old(self).groups() && final(self).dirty == old(
                    self).dirty && final(self).history == old(self).history && final(
                    self).dnd_enabled() == old(self).dnd_enabled(),
            },
    {
        match cmd {
            SocketCommand::DropAll => {
                let ghost g = self.groups();
                self.drop_windows();
                assert(forall|l: int, i: int|
                    valid_pos(g, l, i) ==> #[trigger] window_at(self.groups(), l, i) == marked(
                        window_at(g, l, i),
                    ));
                assert(same_shape(self.groups(), g));
                assert(self.dirty);
                assert(self.history == old(self).history);
                assert(self.dnd_enabled() == old(self).dnd_enabled());
                assert(self.should_exit == old(self).should_exit);
                Ok(SocketOutcome::Done)
            },
            SocketCommand::Drop(sel) => {
                let k = match self.get_window_id(sel) {
                    Ok(k) => k,
                    Err(e) => return Err(e),
                };
                let ghost g = self.groups();
                proof {
                    lemma_selected_exists(g, sel, k);
                }
                self.drop_window_id(k);
                Ok(SocketOutcome::Done)
            },
            SocketCommand::Action(sel, a) => {
                let k = match self.get_window_id(sel) {
                    Ok(k) => k,
                    Err(e) => return Err(e),
                };
                let slot = match parse_action_index(a.as_str()) {
                    Ok(n) => n,
                    Err(e) => return Err(e),
                };
                Ok(SocketOutcome::Invoke(self.trigger_action_idx(k, slot)))
            },
            SocketCommand::ShowId(id) => {
                match self.take_from_history(id) {
                    Some(n) => {
                        let mut ns: Vec<Notification> = Vec::new();
                        ns.push(n);
                        proof {
                            assert(ns@ =~= seq![n]);
                        }
                        Ok(SocketOutcome::Show(ns))
                    },
                    None => Err(CLIError::NotificationNotFound),
                }
            },
            SocketCommand::ShowLast(num) => {
                let ghost h = self.history@;
                let mut ns: Vec<Notification> = Vec::new();
                let mut k: usize = 0;
                while k < num && self.history.len() > 0
                    invariant
                        0 <= k <= num,
                        k <= h.len(),
                        self.history@ == h.take(h.len() - k),
                        ns@ == h.skip(h.len() - k).reverse(),
                        self.layout_windows == old(self).layout_windows,
                        self.dirty == old(self).dirty,
                        self.dnd == old(self).dnd,
                        self.should_exit == old(self).should_exit,
                        self.last_idle_time == old(self).last_idle_time,
                    decreases num - k,
                {
                    let n = self.history.pop_back().unwrap();
                    ns.push(n);
                    proof {
                        assert(self.history@ =~= h.take(h.len() - (k + 1)));
                        assert(h.skip(h.len() - (k + 1)) =~= seq![n] + h.skip(h.len() - k));
                        assert(ns@ =~= h.skip(h.len() - (k + 1)).reverse());
                    }
                    k += 1;
                }
                Ok(SocketOutcome::Show(ns))
            },
            SocketCommand::Dnd(setting) => {
                match setting {
                    Some(b) => self.set_dnd(b),
                    None => {},
                }
                Ok(SocketOutcome::Done)
            },
            SocketCommand::Kill => {
                self.should_exit = true;
                Ok(SocketOutcome::Done)
            },
        }
    }

    /// What invoking action slot `action` (0 the default action, `n` the `n`-th other
    /// action) of the window with key `key` comes to.
    pub fn trigger_action_idx(&self, key: u64, action: usize) -> (r: ActionTrigger)
        ensures
            trigger_matches(r, action_trigger_of(self.groups(), key, action as nat)),
    {
        let ghost g = self.groups();
        match self.find_window_idx(key) {
            None => ActionTrigger::NoWindow,
            Some((l, i)) => {
                proof {
                    lemma_first_where_unique(g, has_key(key), l as int, i as int);
                }
                let w = &self.layout_windows[l].windows[i];
                match w.notification.action_key_for_slot(action) {
                    Some(k) => ActionTrigger::Invoke(w.notification.id, k),
                    None => ActionTrigger::NoAction,
                }
            },
        }
    }

    /// Pauses or resumes the countdown of the first window with key `key`, if there is one.
    pub fn toggle_pause(&mut self, key: u64)
        ensures
            some_where(old(self).groups(), has_key(key)) ==> exists|l: int, i: int|
                first_where(old(self).groups(), has_key(key), l, i) && same_except(
                    final(self).groups(),
                    old(self).groups(),
                    l,
                    i,
                ) && window_at(final(self).groups(), l, i) == with_modes(
                    window_at(old(self).groups(), l, i),
                    window_at(old(self).groups(), l, i).update_mode.toggled(
                        UpdateModes { draw: false, fuse: true },
                    ),
                ),
            !some_where(old(self).groups(), has_key(key)) ==> final(self).groups() == old(self).groups(),
            final(self).dirty == old(self).dirty,
            final(self).history == old(self).history,
            final(self).should_exit == old(self).should_exit,
            final(self).dnd_enabled() == old(self).dnd_enabled(),
            final(self).idle_ms() == old(self).idle_ms(),
    {
        let ghost g = self.groups();
        match self.find_window_idx(key) {
            Some((l, i)) => {
                self.layout_windows[l].windows[i].update_mode.toggle(UpdateModes::fuse_mode());
                assert(first_where(g, has_key(key), l as int, i as int) && same_except(
                    self.groups(),
                    g,
                    l as int,
                    i as int,
                ) && window_at(self.groups(), l as int, i as int) == with_modes(
                    window_at(g, l as int, i as int),
                    window_at(g, l as int, i as int).update_mode.toggled(
                        UpdateModes { draw: false, fuse: true },
                    ),
                ));
            },
            None => {},
        }
    }

    /// Handles a press of button `pressed` (`None` for no button) on the window with key
    /// `key`, as [`press_action`] says under `shortcuts`, and returns what is left for the
    /// caller: clicking the window's blocks, or telling a sender of an invoked action.
    pub fn process_press(&mut self, key: u64, pressed: Option<u16>, shortcuts: &ShortcutsConfig) -> (r:
        PressOutcome)
        ensures
            final(self).history == old(self).history,
            final(self).should_exit == old(self).should_exit,
            final(self).dnd_enabled() == old(self).dnd_enabled(),
            final(self).idle_ms() == old(self).idle_ms(),
            match press_action(pressed, *shortcuts) {
                PressAction::Nothing => r is Nothing && final(self).groups() == old(self).groups()
                    && final(self).dirty == old(self).dirty,
                PressAction::Interact => final(self).groups() == old(self).groups() && final(self).dirty == old(self).dirty && (if some_where(old(self).groups(), has_key(key)) {
                    r == PressOutcome::Click(key)
                } else {
                    r is Nothing
                }),
                PressAction::CloseAll => r is Nothing && final(self).dirty && same_shape(
                    final(self).groups(),
                    old(self).groups(),
                ) && forall|l: int, i: int|
                    valid_pos(old(self).groups(), l, i) ==> #[trigger] window_at(
                        final(self).groups(),
                        l,
                        i,
                    ) == marked(window_at(old(self).groups(), l, i)),
                PressAction::TogglePause => r is Nothing && final(self).dirty == old(self).dirty
                    && (some_where(old(self).groups(), has_key(key)) ==> exists|l: int, i: int|
                    first_where(old(self).groups(), has_key(key), l, i) && same_except(
                        final(self).groups(),
                        old(self).groups(),
                        l,
                        i,
                    ) && window_at(final(self).groups(), l, i) == with_modes(
                        window_at(old(self).groups(), l, i),
                        window_at(old(self).groups(), l, i).update_mode.toggled(
                            UpdateModes { draw: false, fuse: true },
                        ),
                    )) && (!some_where(old(self).groups(), has_key(key)) ==> final(self).groups()
                    == old(self).groups()),
                PressAction::Act { close, then } => {
                    &&& close && some_where(old(self).groups(), has_key(key)) ==> final(self).dirty
                        && exists|l: int, i: int|
                        first_where(old(self).groups(), has_key(key), l, i) && same_except(
                            final(self).groups(),
                            old(self).groups(),
                            l,
                            i,
                        ) && window_at(final(self).groups(), l, i) == marked(
                            window_at(old(self).groups(), l, i),
                        )
                    &&& !(close && some_where(old(self).groups(), has_key(key))) ==> final(self).groups() == old(self).groups() && final(self).dirty == old(self).dirty
                    &&& match then {
                        AfterPress::Nothing => r is Nothing,
                        AfterPress::Interact => if some_where(old(self).groups(), has_key(key)) {
                            r == PressOutcome::Click(key)
                        } else {
                            r is Nothing
                        },
                        AfterPress::Invoke(a) => r matches PressOutcome::Action(t) && trigger_matches(
                            t,
                            action_trigger_of(old(self).groups(), key, a as nat),
                        ),
                    }
                },
            },
    {
        let ghost g = self.groups();
        match shortcut_response(pressed, shortcuts) {
            PressAction::Nothing => PressOutcome::Nothing,
            PressAction::Interact => {
                if self.find_window_idx(key).is_some() {
                    PressOutcome::Click(key)
                } else {
                    PressOutcome::Nothing
                }
            },
            PressAction::CloseAll => {
                self.drop_windows();
                PressOutcome::Nothing
            },
            PressAction::TogglePause => {
                self.toggle_pause(key);
                PressOutcome::Nothing
            },
            PressAction::Act { close, then } => {
                if close {
                    self.drop_window_id(key);
                }
                proof {
                    if close && some_where(g, has_key(key)) {
                        let (l, i) = choose|l: int, i: int|
                            first_where(g, has_key(key), l, i) && same_except(
                                self.groups(),
                                g,
                                l,
                                i,
                            ) && window_at(self.groups(), l, i) == marked(window_at(g, l, i));
                        lemma_marking_keeps_first(g, self.groups(), key, l, i);
                    }
                }
                match then {
                    AfterPress::Nothing => PressOutcome::Nothing,
                    AfterPress::Interact => {
                        if self.find_window_idx(key).is_some() {
                            PressOutcome::Click(key)
                        } else {
                            PressOutcome::Nothing
                        }
                    },
                    AfterPress::Invoke(a) => PressOutcome::Action(self.trigger_action_idx(key, a)),
                }
            },
        }
    }

    /// Switches do-not-disturb on or off.
    pub fn set_dnd(&mut self, val: bool)
        ensures
            final(self).dnd_enabled() == val,
            final(self).groups() == old(self).groups(),
            final(self).history == old(self).history,
            final(self).dirty == old(self).dirty,
            final(self).should_exit == old(self).should_exit,
            final(self).idle_ms() == old(self).idle_ms(),
    {
        self.dnd = val;
    }
}

/// Filtering a sequence with one more element.
proof fn lemma_filter_push<A>(s: Seq<A>, x: A, p: spec_fn(A) -> bool)
    ensures
        s.push(x).filter(p) == (if p(x) {
            s.filter(p).push(x)
        } else {
            s.filter(p)
        }),
{
    reveal(Seq::filter);
    assert(s.push(x).drop_last() =~= s);
}

/// Pushing `a` then `b` onto a history is pushing `a + b`.
proof fn lemma_push_all_capped_append(
    h: Seq<Notification>,
    a: Seq<Notification>,
    b: Seq<Notification>,
    cap: nat,
)
    ensures
        push_all_capped(h, a + b, cap) == push_all_capped(push_all_capped(h, a, cap), b, cap),
    decreases b.len(),
{
    if b.len() == 0 {
        assert(a + b =~= a);
    } else {
        lemma_push_all_capped_append(h, a, b.drop_last(), cap);
        assert((a + b).drop_last() =~= a + b.drop_last());
        assert((a + b).last() == b.last());
    }
}

/// The windows of the first `n` layouts are no more than all of them.
proof fn lemma_window_total_prefix(g: Seq<LayoutWindows>, n: int)
    requires
        0 <= n <= g.len(),
    ensures
        window_total(g.take(n)) <= window_total(g),
    decreases g.len() - n,
{
    if n < g.len() {
        lemma_window_total_prefix(g, n + 1);
        assert(g.take(n + 1).drop_last() =~= g.take(n));
    } else {
        assert(g.take(n) =~= g);
    }
}

/// Creation order is transitive.
proof fn lemma_stamp_before_transitive(s: Seq<i64>, a: int, b: int, c: int)
    requires
        stamp_before(s, a, b),
        stamp_before(s, b, c),
    ensures
        stamp_before(s, a, c),
{
}

/// An index that comes later in creation order has more indices before it.
proof fn lemma_rank_grows(s: Seq<i64>, p: int, p2: int, n: int)
    requires
        0 <= p < s.len(),
        0 <= p2 < s.len(),
        stamp_before(s, p, p2),
        0 <= n <= s.len(),
    ensures
        rank_upto(s, p, n) + (if p < n {
            1int
        } else {
            0int
        }) <= rank_upto(s, p2, n),
    decreases n,
{
    if n > 0 {
        lemma_rank_grows(s, p, p2, n - 1);
        let q = n - 1;
        if stamp_before(s, q, p) {
            lemma_stamp_before_transitive(s, q, p, p2);
        }
    }
}

/// No two indices have the same place in creation order.
proof fn lemma_rank_unique(s: Seq<i64>, p: int)
    requires
        0 <= p < s.len(),
    ensures
        forall|p2: int| 0 <= p2 < s.len() && #[trigger] stamp_rank(s, p2) == stamp_rank(s, p) ==> p2 == p,
{
    assert forall|p2: int| 0 <= p2 < s.len() && #[trigger] stamp_rank(s, p2) == stamp_rank(s, p)
        implies p2 == p by {
        if p2 != p {
            if stamp_before(s, p, p2) {
                lemma_rank_grows(s, p, p2, s.len() as int);
            } else {
                lemma_rank_grows(s, p2, p, s.len() as int);
            }
        }
    }
}

/// A selector that names a key names a window that has it.
proof fn lemma_selected_exists(g: Seq<LayoutWindows>, sel: WindowSelector, k: u64)
    requires
        selected_key(g, sel) == Some(k),
    ensures
        some_where(g, has_key(k)),
{
    lemma_flat_windows_positions(g);
    match sel {
        WindowSelector::Id(id) => {
            let (lw, iw) = choose|l2: int, i2: int|
                valid_pos(g, l2, i2) && shows_id(id)(#[trigger] window_at(g, l2, i2));
            lemma_some_has_first(g, shows_id(id), lw, iw);
            let (l, i) = choose|l: int, i: int| first_where(g, shows_id(id), l, i);
            assert(has_key(k)(window_at(g, l, i)));
        },
        _ => {
            let num: nat = match sel {
                WindowSelector::Latest => (window_total(g) - 1) as nat,
                WindowSelector::Index(n) => (window_total(g) - 1 - n) as nat,
                _ => 0,
            };
            let s = flat_windows(g);
            let p = choose|p: int| 0 <= p < s.len() && #[trigger] stamp_rank(flat_stamps(g), p) == num;
            let (l, i) = choose|l: int, i: int| valid_pos(g, l, i) && #[trigger] window_at(g, l, i) == s[p];
            assert(has_key(k)(window_at(g, l, i)));
        },
    }
}

/// Every window of the flat list stands at some position.
proof fn lemma_flat_windows_positions(g: Seq<LayoutWindows>)
    ensures
        forall|p: int|
            #![trigger flat_windows(g)[p]]
            0 <= p < flat_windows(g).len() ==> exists|l: int, i: int|
                valid_pos(g, l, i) && #[trigger] window_at(g, l, i) == flat_windows(g)[p],
    decreases g.len(),
{
    if g.len() > 0 {
        let h = g.drop_last();
        lemma_flat_windows_positions(h);
        let a = flat_windows(h);
        let b = g.last().windows@;
        assert forall|p: int|
            #![trigger flat_windows(g)[p]]
            0 <= p < flat_windows(g).len() implies exists|l: int, i: int|
            valid_pos(g, l, i) && #[trigger] window_at(g, l, i) == flat_windows(g)[p] by {
            if p < a.len() {
                let (l, i) = choose|l: int, i: int|
                    valid_pos(h, l, i) && #[trigger] window_at(h, l, i) == a[p];
                assert(g[l] == h[l]);
                assert(window_at(g, l, i) == flat_windows(g)[p]);
            } else {
                let i = p - a.len();
                assert(window_at(g, g.len() - 1, i) == flat_windows(g)[p]);
            }
        }
    }
}

/// The flat list holds every window.
proof fn lemma_flat_windows_len(g: Seq<LayoutWindows>)
    ensures
        flat_windows(g).len() == window_total(g),
    decreases g.len(),
{
    if g.len() > 0 {
        lemma_flat_windows_len(g.drop_last());
    }
}

/// An index is never before itself, so its place is below the length.
proof fn lemma_rank_bound(s: Seq<i64>, p: int, m: int)
    requires
        0 <= p < s.len(),
        0 <= m <= s.len(),
    ensures
        rank_upto(s, p, m) + (if p < m {
            1int
        } else {
            0int
        }) <= m,
    decreases m,
{
    if m > 0 {
        lemma_rank_bound(s, p, m - 1);
    }
}

/// The first position whose window satisfies `p` is unique.
proof fn lemma_first_where_unique(groups: Seq<LayoutWindows>, p: spec_fn(NotifyWindow) -> bool, l: int, i: int)
    requires
        first_where(groups, p, l, i),
    ensures
        forall|l2: int, i2: int| #[trigger] first_where(groups, p, l2, i2) ==> l2 == l && i2 == i,
{
    assert forall|l2: int, i2: int| #[trigger] first_where(groups, p, l2, i2) implies l2 == l && i2
        == i by {
        if pos_before(l2, i2, l, i) {
            assert(!p(window_at(groups, l2, i2)));
        } else if pos_before(l, i, l2, i2) {
            assert(!p(window_at(groups, l, i)));
        }
    }
}

/// Marking the window at `(l, i)` keeps the keys, hence the first window with each key.
proof fn lemma_marking_keeps_first(a: Seq<LayoutWindows>, b: Seq<LayoutWindows>, key: u64, l: int, i: int)
    requires
        same_except(b, a, l, i),
        valid_pos(a, l, i),
        window_at(b, l, i) == marked(window_at(a, l, i)),
    ensures
        forall|l2: int, i2: int| #![auto] valid_pos(a, l2, i2) <==> valid_pos(b, l2, i2),
        forall|l2: int, i2: int|
            valid_pos(a, l2, i2) ==> (#[trigger] window_at(b, l2, i2)).key == window_at(a, l2, i2).key
                && window_at(b, l2, i2).notification == window_at(a, l2, i2).notification,
        some_where(b, has_key(key)) == some_where(a, has_key(key)),
        forall|l2: int, i2: int|
            #[trigger] first_where(b, has_key(key), l2, i2) == first_where(a, has_key(key), l2, i2),
        action_trigger_of(b, key, 0) == action_trigger_of(a, key, 0),
        forall|n: nat| #[trigger] action_trigger_of(b, key, n) == action_trigger_of(a, key, n),
{
    assert forall|l2: int, i2: int|
        valid_pos(a, l2, i2) implies (#[trigger] window_at(b, l2, i2)).key == window_at(
        a,
        l2,
        i2,
    ).key && window_at(b, l2, i2).notification == window_at(a, l2, i2).notification by {
        if !(l2 == l && i2 == i) {
            assert(window_at(b, l2, i2) == window_at(a, l2, i2));
        }
    }
    if some_where(a, has_key(key)) {
        let (l2, i2) = choose|l2: int, i2: int|
            valid_pos(a, l2, i2) && has_key(key)(#[trigger] window_at(a, l2, i2));
        assert(has_key(key)(window_at(b, l2, i2)));
    }
    if some_where(b, has_key(key)) {
        let (l2, i2) = choose|l2: int, i2: int|
            valid_pos(b, l2, i2) && has_key(key)(#[trigger] window_at(b, l2, i2));
        assert(has_key(key)(window_at(a, l2, i2)));
    }
    assert forall|l2: int, i2: int|
        #[trigger] first_where(b, has_key(key), l2, i2) == first_where(a, has_key(key), l2, i2) by {
        if first_where(a, has_key(key), l2, i2) {
            assert forall|l3: int, i3: int|
                valid_pos(b, l3, i3) && pos_before(l3, i3, l2, i2) implies !has_key(key)(
                #[trigger] window_at(b, l3, i3),
            ) by {
                assert(!has_key(key)(window_at(a, l3, i3)));
            }
        }
        if first_where(b, has_key(key), l2, i2) {
            assert forall|l3: int, i3: int|
                valid_pos(a, l3, i3) && pos_before(l3, i3, l2, i2) implies !has_key(key)(
                #[trigger] window_at(a, l3, i3),
            ) by {
                assert(!has_key(key)(window_at(b, l3, i3)));
            }
        }
    }
    assert forall|n: nat| #[trigger] action_trigger_of(b, key, n) == action_trigger_of(a, key, n) by {
        if some_where(a, has_key(key)) {
            let (la, ia) = choose|l2: int, i2: int| first_where(a, has_key(key), l2, i2);
            let (lb, ib) = choose|l2: int, i2: int| first_where(b, has_key(key), l2, i2);
            let (lw, iw) = choose|l2: int, i2: int|
                valid_pos(a, l2, i2) && has_key(key)(#[trigger] window_at(a, l2, i2));
            lemma_some_has_first(a, has_key(key), lw, iw);
            lemma_first_where_unique(a, has_key(key), la, ia);
            assert(first_where(b, has_key(key), la, ia));
            lemma_first_where_unique(b, has_key(key), la, ia);
        }
    }
}

/// If some window satisfies `p`, some position is the first to.
proof fn lemma_some_has_first(groups: Seq<LayoutWindows>, p: spec_fn(NotifyWindow) -> bool, l: int, i: int)
    requires
        valid_pos(groups, l, i),
        p(window_at(groups, l, i)),
    ensures
        exists|l2: int, i2: int| first_where(groups, p, l2, i2),
    decreases l, i,
{
    if exists|l2: int, i2: int|
        valid_pos(groups, l2, i2) && pos_before(l2, i2, l, i) && p(#[trigger] window_at(groups, l2, i2)) {
        let (l2, i2) = choose|l2: int, i2: int|
            valid_pos(groups, l2, i2) && pos_before(l2, i2, l, i) && p(
                #[trigger] window_at(groups, l2, i2),
            );
        lemma_some_has_first(groups, p, l2, i2);
    } else {
        assert(first_where(groups, p, l, i));
    }
}

} // verus!
