//! The state machine behind the terminal dashboard: which view is shown,
//! which peer is selected, whether help is open, and what a key press asks
//! the dashboard to do. Drawing and configuration loading are done by the
//! caller.

use vstd::prelude::*;

use crate::error::msg;

verus! {

/// The dashboard's views, in tab order.
#[derive(Debug, Clone, Copy, PartialEq, Eq, Structural)]
pub enum DashboardView {
    Overview,
    Peers,
    Session,
    ControlPlane,
}

impl DashboardView {
    /// The key that selects the view.
    pub fn number(self) -> (c: char)
        ensures
            c == match self {
                DashboardView::Overview => '1',
                DashboardView::Peers => '2',
                DashboardView::Session => '3',
                DashboardView::ControlPlane => '4',
            },
    {
        match self {
            DashboardView::Overview => '1',
            DashboardView::Peers => '2',
            DashboardView::Session => '3',
            DashboardView::ControlPlane => '4',
        }
    }

    /// The view's title.
    pub fn title(self) -> (s: &'static str)
        ensures
            s@ == match self {
                DashboardView::Overview => "Overview"@,
                DashboardView::Peers => "Peers"@,
                DashboardView::Session => "Session"@,
                DashboardView::ControlPlane => "Control plane"@,
            },
    {
        match self {
            DashboardView::Overview => "Overview",
            DashboardView::Peers => "Peers",
            DashboardView::Session => "Session",
            DashboardView::ControlPlane => "Control plane",
        }
    }

    /// The next view in tab order, wrapping around.
    pub fn next(self) -> (v: DashboardView)
        ensures
            v == next_view(self),
    {
        match self {
            DashboardView::Overview => DashboardView::Peers,
            DashboardView::Peers => DashboardView::Session,
            DashboardView::Session => DashboardView::ControlPlane,
            DashboardView::ControlPlane => DashboardView::Overview,
        }
    }
}

/// The view after `v` in tab order.
pub open spec fn next_view(v: DashboardView) -> DashboardView {
    match v {
        DashboardView::Overview => DashboardView::Peers,
        DashboardView::Peers => DashboardView::Session,
        DashboardView::Session => DashboardView::ControlPlane,
        DashboardView::ControlPlane => DashboardView::Overview,
    }
}

/// The keys the dashboard reacts to; every other key is `Other`.
#[derive(Debug, Clone, Copy, PartialEq, Eq, Structural)]
pub enum DashboardKey {
    Char(char),
    Esc,
    Tab,
    Up,
    Down,
    Home,
    End,
    Other,
}

/// What a key press asks of the dashboard loop.
#[derive(Debug, Clone, Copy, PartialEq, Eq, Structural)]
pub enum DashboardAction {
    Continue,
    Quit,
    Reload,
}

/// The dashboard's navigation state.
#[derive(Debug, Clone, Copy, PartialEq, Eq, Structural)]
pub struct DashboardState {
    pub view: DashboardView,
    pub peer_index: usize,
    pub show_help: bool,
}

/// The selection after moving down among `count` peers.
pub open spec fn index_down(index: usize, count: usize) -> usize {
    if count == 0 {
        index
    } else if index + 1 < count - 1 {
        (index + 1) as usize
    } else {
        (count - 1) as usize
    }
}

/// The state and action after a key press; `peer_count` is the number of
/// configured peers, `None` when no configuration is loaded.
pub open spec fn key_step(s: DashboardState, key: DashboardKey, peer_count: Option<usize>) -> (DashboardState, DashboardAction) {
    if s.show_help {
        if key == DashboardKey::Esc || key == DashboardKey::Char('?') || key == DashboardKey::Char('q') {
            (DashboardState { show_help: false, ..s }, DashboardAction::Continue)
        } else {
            (s, DashboardAction::Continue)
        }
    } else {
        match key {
            DashboardKey::Char('q') | DashboardKey::Esc => (s, DashboardAction::Quit),
            DashboardKey::Char('r') => (s, DashboardAction::Reload),
            DashboardKey::Char('?') => (DashboardState { show_help: true, ..s }, DashboardAction::Continue),
            DashboardKey::Char('1') => (DashboardState { view: DashboardView::Overview, ..s }, DashboardAction::Continue),
            DashboardKey::Char('2') => (DashboardState { view: DashboardView::Peers, ..s }, DashboardAction::Continue),
            DashboardKey::Char('3') => (DashboardState { view: DashboardView::Session, ..s }, DashboardAction::Continue),
            DashboardKey::Char('4') => (DashboardState { view: DashboardView::ControlPlane, ..s }, DashboardAction::Continue),
            DashboardKey::Tab => (DashboardState { view: next_view(s.view), ..s }, DashboardAction::Continue),
            DashboardKey::Down | DashboardKey::Char('j') => match peer_count {
                Some(n) => (DashboardState { peer_index: index_down(s.peer_index, n), ..s }, DashboardAction::Continue),
                None => (s, DashboardAction::Continue),
            },
            DashboardKey::Up | DashboardKey::Char('k') => (
                DashboardState { peer_index: if s.peer_index == 0 { 0 } else { (s.peer_index - 1) as usize }, ..s },
                DashboardAction::Continue,
            ),
            DashboardKey::Home => (DashboardState { peer_index: 0, ..s }, DashboardAction::Continue),
            DashboardKey::End => match peer_count {
                Some(n) => (
                    DashboardState { peer_index: if n == 0 { 0 } else { (n - 1) as usize }, ..s },
                    DashboardAction::Continue,
                ),
                None => (s, DashboardAction::Continue),
            },
            _ => (s, DashboardAction::Continue),
        }
    }
}

impl DashboardState {
    /// The state the dashboard opens in.
    pub fn new() -> (s: Self)
        ensures
            s.view == DashboardView::Overview,
            s.peer_index == 0,
            !s.show_help,
    {
        DashboardState { view: DashboardView::Overview, peer_index: 0, show_help: false }
    }

    /// Applies a key press and says what the loop should do next. While
    /// help is open, only Esc, `?` and `q` act, and they close it.
    pub fn handle_key(&mut self, key: DashboardKey, peer_count: Option<usize>) -> (action: DashboardAction)
        ensures
            (*final(self), action) == key_step(*old(self), key, peer_count),
    {
        if self.show_help {
            if key == DashboardKey::Esc || key == DashboardKey::Char('?') || key == DashboardKey::Char('q') {
                self.show_help = false;
            }
            return DashboardAction::Continue;
        }
        match key {
            DashboardKey::Char('q') | DashboardKey::Esc => DashboardAction::Quit,
            DashboardKey::Char('r') => DashboardAction::Reload,
            DashboardKey::Char('?') => {
                self.show_help = true;
                DashboardAction::Continue
            },
            DashboardKey::Char('1') => {
                self.view = DashboardView::Overview;
                DashboardAction::Continue
            },
            DashboardKey::Char('2') => {
                self.view = DashboardView::Peers;
                DashboardAction::Continue
            },
            DashboardKey::Char('3') => {
                self.view = DashboardView::Session;
                DashboardAction::Continue
            },
            DashboardKey::Char('4') => {
                self.view = DashboardView::ControlPlane;
                DashboardAction::Continue
            },
            DashboardKey::Tab => {
                self.view = self.view.next();
                DashboardAction::Continue
            },
            DashboardKey::Down | DashboardKey::Char('j') => {
                if let Some(n) = peer_count {
                    if n > 0 {
                        self.peer_index = if self.peer_index >= n - 1 { n - 1 } else { self.peer_index + 1 };
                    }
                }
                DashboardAction::Continue
            },
            DashboardKey::Up | DashboardKey::Char('k') => {
                self.peer_index = if self.peer_index == 0 { 0 } else { self.peer_index - 1 };
                DashboardAction::Continue
            },
            DashboardKey::Home => {
                self.peer_index = 0;
                DashboardAction::Continue
            },
            DashboardKey::End => {
                if let Some(n) = peer_count {
                    self.peer_index = if n == 0 { 0 } else { n - 1 };
                }
                DashboardAction::Continue
            },
            _ => DashboardAction::Continue,
        }
    }

    /// Keeps the selection within a freshly loaded list of `peer_count`
    /// peers.
    pub fn clamp_to_peers(&mut self, peer_count: usize)
        ensures
            final(self).view == old(self).view,
            final(self).show_help == old(self).show_help,
            final(self).peer_index == (if peer_count == 0 {
                0
            } else if old(self).peer_index < peer_count - 1 {
                old(self).peer_index as int
            } else {
                peer_count - 1
            }),
    {
        let last = if peer_count == 0 { 0 } else { peer_count - 1 };
        if self.peer_index > last {
            self.peer_index = last;
        }
    }
}

/// With peers configured, the selection never leaves the list: a key press
/// keeps a valid selection valid.
pub proof fn lemma_selection_stays_in_range(s: DashboardState, key: DashboardKey, n: usize)
    requires
        n > 0,
        s.peer_index < n,
    ensures
        key_step(s, key, Some(n)).0.peer_index < n,
{
}

/// Help is modal: while it is open, no key quits, reloads, switches views
/// or moves the selection.
pub proof fn lemma_help_is_modal(s: DashboardState, key: DashboardKey, peer_count: Option<usize>)
    requires
        s.show_help,
    ensures
        key_step(s, key, peer_count).1 == DashboardAction::Continue,
        key_step(s, key, peer_count).0.view == s.view,
        key_step(s, key, peer_count).0.peer_index == s.peer_index,
{
}

/// Tab cycles through all four views and returns to the first.
pub proof fn lemma_tab_cycles(v: DashboardView)
    ensures
        next_view(next_view(next_view(next_view(v)))) == v,
        next_view(v) != v,
{
}

/// How long ago a configuration was loaded, given the elapsed whole
/// seconds, `None` when the clock went backwards.
pub fn elapsed_text(elapsed_secs: Option<u64>) -> (s: String)
    ensures
        s@ == match elapsed_secs {
            None => "clock adjusted"@,
            Some(0) => "just now"@,
            Some(n) => crate::text::decimal(n as nat) + "s ago"@,
        },
{
    match elapsed_secs {
        None => msg("clock adjusted"),
        Some(0) => msg("just now"),
        Some(n) => {
            let mut s = crate::text::decimal_string(n);
            s.append("s ago");
            s
        },
    }
}

/// Number of UTF-8 bytes of a character sequence.
pub open spec fn byte_len(s: Seq<char>) -> nat {
    vstd::utf8::encode_utf8(s).len()
}

/// The first `k` characters of `s` take exactly `bytes` bytes.
pub open spec fn char_cut(s: Seq<char>, bytes: int, k: int) -> bool {
    0 <= k <= s.len() && byte_len(s.take(k)) == bytes
}

proof fn lemma_byte_len_grows(s: Seq<char>, i: int, j: int)
    requires
        0 <= i < j <= s.len(),
    ensures
        byte_len(s.take(i)) < byte_len(s.take(j)),
    decreases j - i,
{
    crate::error::lemma_encode_utf8_push(s.take(j - 1), s[j - 1]);
    assert(s.take(j - 1).push(s[j - 1]) =~= s.take(j));
    if i < j - 1 {
        lemma_byte_len_grows(s, i, j - 1);
    }
}

proof fn lemma_cut_order(s: Seq<char>, bytes: int, k: int, i: int)
    requires
        char_cut(s, bytes, k),
        0 <= i <= s.len(),
    ensures
        i < k <==> byte_len(s.take(i)) < bytes,
{
    if i < k {
        lemma_byte_len_grows(s, i, k);
    } else if k < i {
        lemma_byte_len_grows(s, k, i);
    }
}

/// Shortens a long key for display to its first and last ten bytes around
/// an ellipsis; keys of at most 23 bytes are shown whole. The cuts must
/// fall between characters.
pub fn shorten_key(value: &str) -> (r: String)
    requires
        byte_len(value@) > 23 ==> (exists|k: int| #[trigger] char_cut(value@, 10, k)) && (exists|k: int|
            #[trigger] char_cut(value@, byte_len(value@) - 10, k)),
    ensures
        byte_len(value@) <= 23 ==> r@ == value@,
        byte_len(value@) > 23 ==> exists|a: int, b: int|
            #![trigger char_cut(value@, 10, a), char_cut(value@, byte_len(value@) - 10, b)]
            char_cut(value@, 10, a) && char_cut(value@, byte_len(value@) - 10, b) && r@ == value@.take(a) + "..."@
                + value@.skip(b),
{
    let total = value.as_bytes().len();
    if total <= 23 {
        return String::from_str(value);
    }
    let ghost a = choose|k: int| #[trigger] char_cut(value@, 10, k);
    let ghost b = choose|k: int| #[trigger] char_cut(value@, byte_len(value@) - 10, k);
    let mut head = String::new();
    let mut tail = String::new();
    let mut offset: usize = 0;
    proof {
        assert(value@.take(0) =~= Seq::<char>::empty());
        assert(head@ =~= value@.take(0));
        assert(tail@ =~= value@.subrange(b, b));
    }
    for c in it: value.chars()
        invariant
            it.seq() == value@,
            total == byte_len(value@),
            total > 23,
            char_cut(value@, 10, a),
            char_cut(value@, total - 10, b),
            offset == byte_len(value@.take(it.index() as int)),
            head@ == value@.take(if it.index() < a { it.index() as int } else { a }),
            tail@ == value@.subrange(b, if it.index() < b { b } else { it.index() as int }),
    {
        let ghost i = it.index() as int;
        proof {
            crate::error::lemma_encode_utf8_push(value@.take(i), c);
            assert(value@.take(i).push(c) =~= value@.take(i + 1));
            lemma_cut_order(value@, 10, a, i);
            lemma_cut_order(value@, total - 10, b, i);
            assert(value@.take(value@.len() as int) =~= value@);
            if i + 1 < value@.len() {
                lemma_byte_len_grows(value@, i + 1, value@.len() as int);
            }
        }
        if offset < 10 {
            crate::text::push_char(&mut head, c);
            assert(head@ =~= value@.take(i + 1));
        }
        if offset >= total - 10 {
            crate::text::push_char(&mut tail, c);
            assert(tail@ =~= value@.subrange(b, i + 1));
        }
        let u = c as u32;
        let w: usize = if u <= 0x7f {
            1
        } else if u <= 0x7ff {
            2
        } else if u <= 0xffff {
            3
        } else {
            4
        };
        offset = offset + w;
    }
    proof {
        assert(value@.subrange(b, value@.len() as int) =~= value@.skip(b));
    }
    let mut out = head;
    out.append("...");
    out.append(tail.as_str());
    out
}

/// Whether a configured session listens or connects.
#[derive(Debug, Clone, Copy, PartialEq, Eq, Structural)]
pub enum SessionRole {
    Listen,
    Connect,
}

/// One line describing the configured session: its role with the bind
/// address or peer it uses.
pub fn session_summary(role: Option<SessionRole>, bind: Option<&str>, peer: Option<&str>) -> (s: String)
    ensures
        s@ == match role {
            None => "not configured"@,
            Some(SessionRole::Listen) => "listen "@ + match bind {
                Some(b) => b@,
                None => "default"@,
            },
            Some(SessionRole::Connect) => "connect "@ + match peer {
                Some(p) => p@,
                None => "unset"@,
            },
        },
{
    match role {
        None => msg("not configured"),
        Some(SessionRole::Listen) => {
            let mut s = msg("listen ");
            match bind {
                Some(b) => s.append(b),
                None => s.append("default"),
            }
            s
        },
        Some(SessionRole::Connect) => {
            let mut s = msg("connect ");
            match peer {
                Some(p) => s.append(p),
                None => s.append("unset"),
            }
            s
        },
    }
}

} // verus!
