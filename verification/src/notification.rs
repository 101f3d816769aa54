//! Notifications as the daemon holds them, built from what arrives over D-Bus, and the
//! bookkeeping around them: identifiers, urgency, actions, and the image data check.
use vstd::prelude::*;
use crate::chars::{chars_of, string_from_chars};
use crate::maths_utility::{escape_decode, escape_decode_safe, escaped};

verus! {

/// How urgent a notification is, as the freedesktop specification grades it.
#[derive(Clone, Copy, Debug, PartialEq, Eq, Structural)]
pub enum Urgency {
    Low,
    Normal,
    Critical,
}

impl Default for Urgency {
    fn default() -> (u: Self)
        ensures
            u == Urgency::Normal,
    {
        Urgency::Normal
    }
}

/// The urgency that the `urgency` hint asks for: 0 is low, 1 normal, 2 critical; any other
/// value, or no hint, is normal.
pub open spec fn urgency_of_hint(level: Option<u8>) -> Urgency {
    match level {
        Some(0) => Urgency::Low,
        Some(1) => Urgency::Normal,
        Some(2) => Urgency::Critical,
        _ => Urgency::Normal,
    }
}

/// The urgency that the `urgency` hint asks for.
pub fn urgency_from_hint(level: Option<u8>) -> (u: Urgency)
    ensures
        u == urgency_of_hint(level),
{
    match level {
        Some(0) => Urgency::Low,
        Some(1) => Urgency::Normal,
        Some(2) => Urgency::Critical,
        _ => Urgency::Normal,
    }
}

/// Hands out notification identifiers, counting up from 1 and wrapping around at the end of
/// the `u32` range.
pub struct IdCounter {
    next: u32,
}

impl IdCounter {
    /// The identifier that the next call of [`fetch_id`] returns.
    pub closed spec fn next_id(&self) -> u32 {
        self.next
    }

    /// A counter whose first identifier is 1.
    pub fn new() -> (c: Self)
        ensures
            c.next_id() == 1,
    {
        IdCounter { next: 1 }
    }
}

/// Takes the next identifier from `counter`.
pub fn fetch_id(counter: &mut IdCounter) -> (id: u32)
    ensures
        id == old(counter).next_id(),
        final(counter).next_id() == (if id == u32::MAX { 0 } else { (id + 1) as u32 }),
{
    let id = counter.next;
    counter.next = if id == u32::MAX {
        0
    } else {
        id + 1
    };
    id
}

/// Identifiers taken one call after another from a counter made by `IdCounter::new` are
/// 1, 2, 3, ... in call order, so fewer than `u32::MAX` of them are all different and none
/// is 0. `counters[i]` is the counter before call `i` and `ids[i]` what that call returned.
pub proof fn fetched_ids_count_up(counters: Seq<IdCounter>, ids: Seq<u32>)
    requires
        counters.len() == ids.len() + 1,
        ids.len() < u32::MAX,
        counters[0].next_id() == 1,
        forall|i: int|
            0 <= i < ids.len() ==> #[trigger] ids[i] == counters[i].next_id() && counters[i
                + 1].next_id() == (if ids[i] == u32::MAX {
                0
            } else {
                (ids[i] + 1) as u32
            }),
    ensures
        forall|i: int| 0 <= i < ids.len() ==> #[trigger] ids[i] == i + 1,
        forall|i: int, j: int| 0 <= i < j < ids.len() ==> #[trigger] ids[i] != #[trigger] ids[j],
        forall|i: int| 0 <= i < ids.len() ==> #[trigger] ids[i] != 0,
    decreases ids.len(),
{
    if ids.len() > 0 {
        let m = ids.len() - 1;
        fetched_ids_count_up(counters.take(m + 1), ids.take(m));
        assert forall|i: int| 0 <= i < ids.len() implies #[trigger] ids[i] == i + 1 by {
            if i < m {
                assert(ids.take(m)[i] == ids[i]);
            } else if m > 0 {
                assert(ids.take(m)[m - 1] == ids[m - 1]);
                assert(ids[m - 1] == m);
                assert(counters[m].next_id() == m + 1);
            }
        }
    }
}

/// A notification: what the sender asked to show and how, in plain values. The images and
/// the arrival time themselves stay with whoever renders; the notification records whether
/// each image is present and the arrival time as a Unix timestamp.
#[derive(Clone, Debug)]
pub struct Notification {
    pub id: u32,
    pub tag: Option<String>,
    pub app_name: String,
    pub summary: String,
    pub body: String,
    /// Action keys and their labels; each key occurs once.
    pub actions: Vec<(String, String)>,
    pub has_app_image: bool,
    pub has_hint_image: bool,
    /// The raw `value` hint (a percentage, nominally 0 to 100), if there was one.
    pub value: Option<i32>,
    pub urgency: Urgency,
    /// Arrival time: whole seconds since the Unix epoch.
    pub time_secs: i64,
    /// Arrival time: nanoseconds past `time_secs`.
    pub time_nanos: u32,
    /// How long to show the notification, in milliseconds.
    pub timeout: i32,
}

/// An action entry, as text: key and label.
pub type ActionEntry = (Seq<char>, Seq<char>);

/// The key of the default action.
pub open spec fn default_key() -> Seq<char> {
    seq!['d', 'e', 'f', 'a', 'u', 'l', 't']
}

/// `j` is the first index of `m` whose key is `k`.
pub open spec fn first_key_at(m: Seq<ActionEntry>, k: Seq<char>, j: int) -> bool {
    0 <= j < m.len() && m[j].0 == k && forall|i: int| 0 <= i < j ==> m[i].0 != k
}

/// Whether some entry of `m` has key `k`.
pub open spec fn has_key(m: Seq<ActionEntry>, k: Seq<char>) -> bool {
    exists|j: int| 0 <= j < m.len() && m[j].0 == k
}

/// No key occurs twice in `m`.
pub open spec fn keys_unique(m: Seq<ActionEntry>) -> bool {
    forall|i: int, j: int| 0 <= i < j < m.len() ==> m[i].0 != m[j].0
}

/// `m` with the value of key `k` set to `v`: the first entry with that key is replaced,
/// or, without one, the pair goes at the end.
pub open spec fn upsert(m: Seq<ActionEntry>, k: Seq<char>, v: Seq<char>) -> Seq<ActionEntry> {
    if has_key(m, k) {
        m.update(choose|j: int| first_key_at(m, k, j), (k, v))
    } else {
        m.push((k, v))
    }
}

/// The action entries that a D-Bus action list (key, label, key, label, ...) makes, a later
/// pair with the same key overriding an earlier one. An unpaired last element, which only a
/// faulty client sends, is left out.
pub open spec fn action_pairs(list: Seq<Seq<char>>) -> Seq<ActionEntry>
    decreases list.len(),
{
    if list.len() < 2 {
        Seq::empty()
    } else if list.len() % 2 == 1 {
        action_pairs(list.drop_last())
    } else {
        upsert(action_pairs(list.take(list.len() - 2)), list[list.len() - 2], list.last())
    }
}

/// The entries of `m` whose key is not the default key, in order.
pub open spec fn other_entries(m: Seq<ActionEntry>) -> Seq<ActionEntry>
    decreases m.len(),
{
    if m.len() == 0 {
        Seq::empty()
    } else if m.last().0 != default_key() {
        other_entries(m.drop_last()).push(m.last())
    } else {
        other_entries(m.drop_last())
    }
}

/// The key that action slot `action` names: slot 0 the default action, if there is one;
/// slot `n` the `n`-th action other than the default one (from 1), if there are that many.
pub open spec fn slot_key(m: Seq<ActionEntry>, action: nat) -> Option<Seq<char>> {
    if action == 0 {
        if has_key(m, default_key()) {
            Some(default_key())
        } else {
            None
        }
    } else if action - 1 < other_entries(m).len() {
        Some(other_entries(m)[action - 1].0)
    } else {
        None
    }
}

proof fn lemma_first_key_unique(m: Seq<ActionEntry>, k: Seq<char>, j: int, j2: int)
    requires
        first_key_at(m, k, j),
        first_key_at(m, k, j2),
    ensures
        j == j2,
{
}

/// A notification as values: its texts as character sequences.
pub struct NotificationView {
    pub id: u32,
    pub tag: Option<Seq<char>>,
    pub app_name: Seq<char>,
    pub summary: Seq<char>,
    pub body: Seq<char>,
    pub actions: Seq<ActionEntry>,
    pub has_app_image: bool,
    pub has_hint_image: bool,
    pub value: Option<i32>,
    pub urgency: Urgency,
    pub time_secs: i64,
    pub time_nanos: u32,
    pub timeout: i32,
}

/// The text of an optional string.
pub open spec fn opt_text(s: Option<String>) -> Option<Seq<char>> {
    match s {
        Some(t) => Some(t@),
        None => None,
    }
}

impl View for Notification {
    type V = NotificationView;

    open spec fn view(&self) -> NotificationView {
        NotificationView {
            id: self.id,
            tag: opt_text(self.tag),
            app_name: self.app_name@,
            summary: self.summary@,
            body: self.body@,
            actions: self.action_entries(),
            has_app_image: self.has_app_image,
            has_hint_image: self.has_hint_image,
            value: self.value,
            urgency: self.urgency,
            time_secs: self.time_secs,
            time_nanos: self.time_nanos,
            timeout: self.timeout,
        }
    }
}

impl Notification {
    /// The action entries as text, in order.
    pub open spec fn action_entries(&self) -> Seq<ActionEntry> {
        self.actions@.map_values(|p: (String, String)| (p.0@, p.1@))
    }

    /// A copy of this notification.
    pub fn duplicate(&self) -> (r: Notification)
        ensures
            r@ == self@,
    {
        let mut actions: Vec<(String, String)> = Vec::new();
        let mut i: usize = 0;
        while i < self.actions.len()
            invariant
                0 <= i <= self.actions@.len(),
                actions@.len() == i,
                forall|j: int| 0 <= j < i ==> #[trigger] actions@[j] == self.actions@[j],
            decreases self.actions@.len() - i,
        {
            let k = self.actions[i].0.clone();
            let v = self.actions[i].1.clone();
            actions.push((k, v));
            i += 1;
        }
        let tag = match &self.tag {
            Some(t) => Some(t.clone()),
            None => None,
        };
        let r = Notification {
            id: self.id,
            tag,
            app_name: self.app_name.clone(),
            summary: self.summary.clone(),
            body: self.body.clone(),
            actions,
            has_app_image: self.has_app_image,
            has_hint_image: self.has_hint_image,
            value: self.value,
            urgency: self.urgency,
            time_secs: self.time_secs,
            time_nanos: self.time_nanos,
            timeout: self.timeout,
        };
        assert(r.action_entries() =~= self.action_entries());
        r
    }

    /// The default action, as (key, label), if the notification has one.
    pub fn get_default_action(&self) -> (r: Option<(String, String)>)
        ensures
            r matches Some(p) ==> exists|j: int|
                first_key_at(self.action_entries(), default_key(), j) && (p.0@, p.1@)
                    == self.action_entries()[j],
            r is None ==> !has_key(self.action_entries(), default_key()),
    {
        let key = string_from_chars(&vec!['d', 'e', 'f', 'a', 'u', 'l', 't']);
        let mut i: usize = 0;
        while i < self.actions.len()
            invariant
                key@ == default_key(),
                0 <= i <= self.actions@.len(),
                forall|j: int| 0 <= j < i ==> self.action_entries()[j].0 != default_key(),
            decreases self.actions@.len() - i,
        {
            if self.actions[i].0 == key {
                assert(first_key_at(self.action_entries(), default_key(), i as int));
                return Some((self.actions[i].0.clone(), self.actions[i].1.clone()));
            }
            i += 1;
        }
        None
    }

    /// The `idx`-th action that is not the default one, as (key, label), if there are more
    /// than `idx` of them.
    pub fn get_other_action(&self, idx: usize) -> (r: Option<(String, String)>)
        ensures
            r matches Some(p) ==> idx < other_entries(self.action_entries()).len() && (p.0@, p.1@)
                == other_entries(self.action_entries())[idx as int],
            r is None ==> idx >= other_entries(self.action_entries()).len(),
    {
        let key = string_from_chars(&vec!['d', 'e', 'f', 'a', 'u', 'l', 't']);
        let ghost m = self.action_entries();
        let mut i: usize = 0;
        let mut seen: usize = 0;
        while i < self.actions.len()
            invariant
                key@ == default_key(),
                m == self.action_entries(),
                0 <= i <= self.actions@.len(),
                seen == other_entries(m.take(i as int)).len(),
                seen <= idx,
            decreases self.actions@.len() - i,
        {
            proof {
                assert(m.take(i + 1).drop_last() =~= m.take(i as int));
            }
            if self.actions[i].0 != key {
                if seen == idx {
                    proof {
                        lemma_other_entries_prefix(m, i as int + 1);
                        assert(other_entries(m.take(i + 1))[idx as int] == m[i as int]);
                        lemma_other_entries_grow(m, i as int + 1);
                    }
                    return Some((self.actions[i].0.clone(), self.actions[i].1.clone()));
                }
                seen += 1;
            }
            i += 1;
        }
        proof {
            assert(m.take(i as int) =~= m);
        }
        None
    }

    /// The key of the action that action slot `action` invokes: slot 0 is the default action,
    /// slot `n` the `n`-th other action (from 1).
    pub fn action_key_for_slot(&self, action: usize) -> (r: Option<String>)
        ensures
            opt_text(r) == slot_key(self.action_entries(), action as nat),
    {
        if action == 0 {
            match self.get_default_action() {
                Some(p) => Some(p.0),
                None => None,
            }
        } else {
            match self.get_other_action(action - 1) {
                Some(p) => Some(p.0),
                None => None,
            }
        }
    }
}

proof fn lemma_other_entries_prefix(m: Seq<ActionEntry>, n: int)
    requires
        0 < n <= m.len(),
        m[n - 1].0 != default_key(),
    ensures
        other_entries(m.take(n)) == other_entries(m.take(n - 1)).push(m[n - 1]),
{
    assert(m.take(n).drop_last() =~= m.take(n - 1));
}

proof fn lemma_other_entries_grow(m: Seq<ActionEntry>, n: int)
    requires
        0 <= n <= m.len(),
    ensures
        other_entries(m.take(n)).len() <= other_entries(m).len(),
        forall|j: int|
            0 <= j < other_entries(m.take(n)).len() ==> #[trigger] other_entries(m.take(n))[j]
                == other_entries(m)[j],
    decreases m.len() - n,
{
    if n == m.len() {
        assert(m.take(n) =~= m);
    } else {
        lemma_other_entries_grow(m, n + 1);
        let a = m.take(n);
        let b = m.take(n + 1);
        assert(b.drop_last() =~= a);
        assert(other_entries(b) == if b.last().0 != default_key() {
            other_entries(a).push(b.last())
        } else {
            other_entries(a)
        });
        assert forall|j: int| 0 <= j < other_entries(a).len() implies #[trigger] other_entries(
            a,
        )[j] == other_entries(m)[j] by {
            assert(other_entries(a)[j] == other_entries(b)[j]);
        }
    }
}

/// Sets the label of key `k` to `v` in `out`, adding the pair at the end if the key is new.
fn upsert_action(out: &mut Vec<(String, String)>, k: String, v: String)
    requires
        keys_unique(old(out)@.map_values(|p: (String, String)| (p.0@, p.1@))),
    ensures
        final(out)@.map_values(|p: (String, String)| (p.0@, p.1@)) == upsert(
            old(out)@.map_values(|p: (String, String)| (p.0@, p.1@)),
            k@,
            v@,
        ),
        keys_unique(final(out)@.map_values(|p: (String, String)| (p.0@, p.1@))),
{
    let ghost m = old(out)@.map_values(|p: (String, String)| (p.0@, p.1@));
    let mut i: usize = 0;
    while i < out.len()
        invariant
            out@ == old(out)@,
            m == old(out)@.map_values(|p: (String, String)| (p.0@, p.1@)),
            keys_unique(m),
            0 <= i <= out@.len(),
            forall|j: int| 0 <= j < i ==> m[j].0 != k@,
        decreases out@.len() - i,
    {
        if out[i].0 == k {
            proof {
                assert(first_key_at(m, k@, i as int));
                let c = choose|j: int| first_key_at(m, k@, j);
                lemma_first_key_unique(m, k@, i as int, c);
            }
            out[i] = (k, v);
            proof {
                let after = out@.map_values(|p: (String, String)| (p.0@, p.1@));
                assert(after =~= m.update(i as int, (k@, v@)));
            }
            return;
        }
        i += 1;
    }
    out.push((k, v));
    proof {
        let after = out@.map_values(|p: (String, String)| (p.0@, p.1@));
        assert(after =~= m.push((k@, v@)));
    }
}

/// The action entries that a D-Bus action list (key, label, key, label, ...) makes: element
/// `2k` is paired with element `2k + 1` while both are there; an unpaired last element is
/// dropped.
pub fn actions_from_list(actions: &Vec<String>) -> (out: Vec<(String, String)>)
    ensures
        out@.map_values(|p: (String, String)| (p.0@, p.1@)) == action_pairs(
            actions@.map_values(|s: String| s@),
        ),
        keys_unique(out@.map_values(|p: (String, String)| (p.0@, p.1@))),
{
    let ghost list = actions@.map_values(|s: String| s@);
    let mut out: Vec<(String, String)> = Vec::new();
    let mut i: usize = 0;
    proof {
        assert(out@.map_values(|p: (String, String)| (p.0@, p.1@)) =~= Seq::<ActionEntry>::empty());
        assert(list.take(0) =~= Seq::<Seq<char>>::empty());
    }
    while i + 1 < actions.len()
        invariant
            list == actions@.map_values(|s: String| s@),
            i % 2 == 0,
            0 <= i <= actions@.len(),
            out@.map_values(|p: (String, String)| (p.0@, p.1@)) == action_pairs(
                list.take(i as int),
            ),
            keys_unique(out@.map_values(|p: (String, String)| (p.0@, p.1@))),
        decreases actions@.len() - i,
    {
        let k = actions[i].clone();
        let v = actions[i + 1].clone();
        upsert_action(&mut out, k, v);
        proof {
            let t = list.take(i + 2);
            assert(t.take(t.len() - 2) =~= list.take(i as int));
            assert(t[t.len() - 2] == list[i as int]);
            assert(t.last() == list[i + 1]);
        }
        i += 2;
    }
    proof {
        if i == actions@.len() {
            assert(list.take(i as int) =~= list);
        } else {
            assert(list.take(i as int) =~= list.drop_last());
        }
    }
    out
}

/// The timeout a notification gets: the one it asked for, or `default_timeout` if it asked
/// for none (zero or less).
pub open spec fn effective_timeout(expire_timeout: i32, default_timeout: i32) -> i32 {
    if expire_timeout <= 0 {
        default_timeout
    } else {
        expire_timeout
    }
}

/// The timeout a notification keeps is the one it asked for when that is positive; any
/// other request (0, or -1 for "the server's default") gets `default_timeout`, so the
/// timeout is positive whenever the default is.
pub proof fn non_positive_timeouts_take_the_default(expire_timeout: i32, default_timeout: i32)
    ensures
        expire_timeout <= 0 ==> effective_timeout(expire_timeout, default_timeout) == default_timeout,
        expire_timeout > 0 ==> effective_timeout(expire_timeout, default_timeout) == expire_timeout,
        default_timeout > 0 ==> effective_timeout(expire_timeout, default_timeout) > 0,
{
}

impl Notification {
    /// Builds a notification from what a D-Bus `Notify` call carries: summary and body are
    /// made safe for Pango markup, the action list is paired up, the urgency hint read, and a
    /// missing timeout (zero or less) replaced by `default_timeout`. The hints other than
    /// urgency arrive already read: `tag` is the `wired-tag` hint and `value` the `value` hint.
    pub fn from_dbus(
        id: u32,
        app_name: String,
        summary: &str,
        body: &str,
        actions: &Vec<String>,
        urgency_hint: Option<u8>,
        tag: Option<String>,
        value: Option<i32>,
        expire_timeout: i32,
        default_timeout: i32,
        has_app_image: bool,
        has_hint_image: bool,
        time_secs: i64,
        time_nanos: u32,
    ) -> (n: Self)
        requires
            escape_decode_safe(summary@),
            escape_decode_safe(body@),
        ensures
            n.id == id,
            n.tag == tag,
            n.app_name == app_name,
            n.summary@ == escaped(summary@),
            n.body@ == escaped(body@),
            n.action_entries() == action_pairs(actions@.map_values(|s: String| s@)),
            keys_unique(n.action_entries()),
            n.has_app_image == has_app_image,
            n.has_hint_image == has_hint_image,
            n.value == value,
            n.urgency == urgency_of_hint(urgency_hint),
            n.time_secs == time_secs,
            n.time_nanos == time_nanos,
            n.timeout == effective_timeout(expire_timeout, default_timeout),
    {
        let summary = escape_decode(summary);
        let body = escape_decode(body);
        let actions = actions_from_list(actions);
        let urgency = urgency_from_hint(urgency_hint);
        let timeout = if expire_timeout <= 0 {
            default_timeout
        } else {
            expire_timeout
        };
        Notification {
            id,
            tag,
            app_name,
            summary,
            body,
            actions,
            has_app_image,
            has_hint_image,
            value,
            urgency,
            time_secs,
            time_nanos,
            timeout,
        }
    }

    /// A notification that the daemon sends itself: from "Wired", with low urgency and no
    /// actions, images or hints.
    pub fn from_self(
        id: u32,
        summary: &str,
        body: &str,
        timeout: i32,
        time_secs: i64,
        time_nanos: u32,
    ) -> (n: Self)
        ensures
            n.id == id,
            n.tag is None,
            n.app_name@ == seq!['W', 'i', 'r', 'e', 'd'],
            n.summary@ == summary@,
            n.body@ == body@,
            n.action_entries() == Seq::<ActionEntry>::empty(),
            !n.has_app_image,
            !n.has_hint_image,
            n.value is None,
            n.urgency == Urgency::Low,
            n.time_secs == time_secs,
            n.time_nanos == time_nanos,
            n.timeout == timeout,
    {
        let actions: Vec<(String, String)> = Vec::new();
        let n = Notification {
            id,
            tag: None,
            app_name: string_from_chars(&vec!['W', 'i', 'r', 'e', 'd']),
            summary: string_from_chars(&chars_of(summary)),
            body: string_from_chars(&chars_of(body)),
            actions,
            has_app_image: false,
            has_hint_image: false,
            value: None,
            urgency: Urgency::Low,
            time_secs,
            time_nanos,
            timeout,
        };
        assert(n.action_entries() =~= Seq::<ActionEntry>::empty());
        n
    }
}

} // verus!
