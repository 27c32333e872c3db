//! Per-client protocol state of the keyboard-accessibility monitor, and the
//! read-only queries the input pipeline asks on its hot path.
//!
//! Each caller identity owns one [`ClientSession`]: a grab flag, a watch
//! flag, the virtual-modifier symbols it declared, and the key grabs it
//! registered. Sessions are created lazily on first contact and mutated only
//! by the five protocol handlers; every handler is addressed by the caller's
//! identity and is a silent no-op when no identity accompanies the call.
//!
//! The bus glue around this crate owns the connection, serializes the
//! handlers, and emits the broadcast that [`A11yKeyboardMonitorState::key_event`]
//! decides on.

use vstd::prelude::*;

use crate::codec::{decode, spec_decode, GrabView, KeyGrab};
use crate::ids::{Identity, Keysym};

verus! {

/// Mathematical view of one client's session: the virtual modifiers as a
/// set, the key grabs as a sequence of [`GrabView`]s.
#[verifier::ext_equal]
pub ghost struct SessionView {
    pub grabbed: bool,
    pub watched: bool,
    pub virtual_mods: Set<Keysym>,
    pub key_grabs: Seq<GrabView>,
}

impl SessionView {
    /// The state of a caller that has never spoken: all flags clear,
    /// nothing declared, nothing registered.
    pub open spec fn initial() -> SessionView {
        SessionView {
            grabbed: false,
            watched: false,
            virtual_mods: Set::empty(),
            key_grabs: Seq::empty(),
        }
    }
}

/// One caller's accessibility-protocol state.
#[derive(Debug)]
pub struct ClientSession {
    pub grabbed: bool,
    pub watched: bool,
    pub virtual_mods: Vec<Keysym>,
    pub key_grabs: Vec<KeyGrab>,
}

impl View for ClientSession {
    type V = SessionView;

    open spec fn view(&self) -> SessionView {
        SessionView {
            grabbed: self.grabbed,
            watched: self.watched,
            virtual_mods: self.virtual_mods@.to_set(),
            key_grabs: self.key_grabs@.map_values(|g: KeyGrab| g@),
        }
    }
}

/// A session table entry: the owning identity and its session.
#[derive(Debug)]
struct ClientEntry {
    id: Identity,
    session: ClientSession,
}

/// No two entries of the table carry the same identity.
spec fn entry_ids_unique(s: Seq<ClientEntry>) -> bool {
    forall|p: int, q: int| 0 <= p < q < s.len() ==> s[p].id != s[q].id
}

/// Some entry of `s` carries `id`.
spec fn has_id(s: Seq<ClientEntry>, id: Identity) -> bool {
    exists|i: int| 0 <= i < s.len() && s[i].id == id
}

/// The session `s` holds for `id`; a caller without an entry is in its
/// initial state.
spec fn session_at(s: Seq<ClientEntry>, id: Identity) -> SessionView {
    if has_id(s, id) {
        let i = choose|i: int| 0 <= i < s.len() && s[i].id == id;
        s[i].session@
    } else {
        SessionView::initial()
    }
}

/// With unique identities, the entry at index `i` is the one `session_at`
/// speaks of.
proof fn lemma_at_index(s: Seq<ClientEntry>, i: int)
    requires
        entry_ids_unique(s),
        0 <= i < s.len(),
    ensures
        has_id(s, s[i].id),
        session_at(s, s[i].id) == s[i].session@,
{
    let id = s[i].id;
    assert(has_id(s, id));
    let j = choose|j: int| 0 <= j < s.len() && s[j].id == id;
    if j < i {
        assert(s[j].id != s[i].id);
    } else if i < j {
        assert(s[i].id != s[j].id);
    }
}

/// Removing the entry at index `i` removes exactly the identity it carried
/// and leaves every other caller's session as it was.
proof fn lemma_remove_entry(s: Seq<ClientEntry>, i: int)
    requires
        entry_ids_unique(s),
        0 <= i < s.len(),
    ensures
        entry_ids_unique(s.remove(i)),
        !has_id(s.remove(i), s[i].id),
        forall|x: Identity| x != s[i].id ==> has_id(s.remove(i), x) == has_id(s, x),
        forall|x: Identity| x != s[i].id ==> session_at(s.remove(i), x) == session_at(s, x),
{
    let t = s.remove(i);
    let id0 = s[i].id;
    assert(t.len() == s.len() - 1);
    assert(forall|k: int| 0 <= k < i ==> t[k] == s[k]);
    assert(forall|k: int| i <= k < t.len() ==> t[k] == s[k + 1]);

    assert forall|k: int| 0 <= k < t.len() implies t[k].id != id0 by {
        if k < i {
            assert(s[k].id != s[i].id);
        } else {
            assert(s[i].id != s[k + 1].id);
        }
    }

    assert forall|x: Identity| x != id0 implies has_id(t, x) == has_id(s, x)
        && session_at(t, x) == session_at(s, x) by {
        if has_id(s, x) {
            let j = choose|j: int| 0 <= j < s.len() && s[j].id == x;
            let j2: int = if j < i {
                j
            } else {
                j - 1
            };
            assert(t[j2] == s[j]);
            assert(has_id(t, x));
            lemma_at_index(s, j);
            lemma_at_index(t, j2);
        } else {
            if has_id(t, x) {
                let k = choose|k: int| 0 <= k < t.len() && t[k].id == x;
                if k < i {
                    assert(s[k].id == x);
                } else {
                    assert(s[k + 1].id == x);
                }
                assert(false);
            }
        }
    }
}

/// Appending an entry for an absent identity adds exactly that caller and
/// leaves every other caller's session as it was.
proof fn lemma_push_entry(s: Seq<ClientEntry>, e: ClientEntry)
    requires
        entry_ids_unique(s),
        !has_id(s, e.id),
    ensures
        entry_ids_unique(s.push(e)),
        has_id(s.push(e), e.id),
        session_at(s.push(e), e.id) == e.session@,
        forall|x: Identity| x != e.id ==> has_id(s.push(e), x) == has_id(s, x),
        forall|x: Identity| x != e.id ==> session_at(s.push(e), x) == session_at(s, x),
{
    let t = s.push(e);
    assert(forall|k: int| 0 <= k < s.len() ==> t[k] == s[k]);
    assert(t[s.len() as int] == e);
    assert forall|p: int, q: int| 0 <= p < q < t.len() implies t[p].id != t[q].id by {
        if q < s.len() {
            assert(s[p].id != s[q].id);
        } else {
            if t[p].id == e.id {
                assert(has_id(s, e.id));
            }
        }
    }
    lemma_at_index(t, s.len() as int);
    assert forall|x: Identity| x != e.id implies has_id(t, x) == has_id(s, x)
        && session_at(t, x) == session_at(s, x) by {
        if has_id(s, x) {
            let j = choose|j: int| 0 <= j < s.len() && s[j].id == x;
            assert(t[j].id == x);
            lemma_at_index(s, j);
            lemma_at_index(t, j);
        } else {
            if has_id(t, x) {
                let k = choose|k: int| 0 <= k < t.len() && t[k].id == x;
                if k < s.len() {
                    assert(s[k].id == x);
                }
                assert(false);
            }
        }
    }
}

/// No symbol occurs twice.
spec fn symbols_distinct(s: Seq<Keysym>) -> bool {
    forall|p: int, q: int| 0 <= p < q < s.len() ==> s[p] != s[q]
}

/// Appending a symbol inserts it into the set the sequence stands for, and
/// keeps the symbols distinct when it was absent.
proof fn lemma_push_symbol(s: Seq<Keysym>, x: Keysym)
    ensures
        s.push(x).to_set() == s.to_set().insert(x),
        symbols_distinct(s) && !s.contains(x) ==> symbols_distinct(s.push(x)),
{
    let t = s.push(x);
    assert forall|y: Keysym| t.to_set().contains(y) == s.to_set().insert(x).contains(y) by {
        if t.contains(y) {
            let k = choose|k: int| 0 <= k < t.len() && t[k] == y;
            if k < s.len() {
                assert(s[k] == y);
            }
        }
        if s.contains(y) {
            let k = choose|k: int| 0 <= k < s.len() && s[k] == y;
            assert(t[k] == y);
        }
        if y == x {
            assert(t[s.len() as int] == y);
        }
    }
    assert(t.to_set() =~= s.to_set().insert(x));
    if symbols_distinct(s) && !s.contains(x) {
        assert forall|p: int, q: int| 0 <= p < q < t.len() implies t[p] != t[q] by {
            if q < s.len() {
                assert(s[p] != s[q]);
            } else {
                if t[p] == x {
                    assert(s.contains(x));
                }
            }
        }
    }
}

/// Removing the only occurrence of a symbol removes it from the set the
/// sequence stands for.
proof fn lemma_remove_symbol(s: Seq<Keysym>, i: int)
    requires
        symbols_distinct(s),
        0 <= i < s.len(),
    ensures
        symbols_distinct(s.remove(i)),
        s.remove(i).to_set() == s.to_set().remove(s[i]),
{
    let t = s.remove(i);
    let x = s[i];
    assert(t.len() == s.len() - 1);
    assert(forall|k: int| 0 <= k < i ==> t[k] == s[k]);
    assert(forall|k: int| i <= k < t.len() ==> t[k] == s[k + 1]);
    assert forall|p: int, q: int| 0 <= p < q < t.len() implies t[p] != t[q] by {
        let p2: int = if p < i {
            p
        } else {
            p + 1
        };
        let q2: int = if q < i {
            q
        } else {
            q + 1
        };
        assert(s[p2] != s[q2]);
    }
    assert forall|y: Keysym| t.to_set().contains(y) == s.to_set().remove(x).contains(y) by {
        if t.contains(y) {
            let k = choose|k: int| 0 <= k < t.len() && t[k] == y;
            if k < i {
                assert(s[k] == y);
                if y == x {
                    assert(s[k] != s[i]);
                }
            } else {
                assert(s[k + 1] == y);
                if y == x {
                    assert(s[i] != s[k + 1]);
                }
            }
        }
        if s.contains(y) && y != x {
            let k = choose|k: int| 0 <= k < s.len() && s[k] == y;
            if k < i {
                assert(t[k] == y);
            } else if k > i {
                assert(t[k - 1] == y);
            }
        }
    }
    assert(t.to_set() =~= s.to_set().remove(x));
}

/// Whether `v` holds the symbol `x`.
fn vec_contains(v: &Vec<Keysym>, x: Keysym) -> (r: bool)
    ensures
        r == v@.contains(x),
{
    let mut i: usize = 0;
    while i < v.len()
        invariant
            i <= v@.len(),
            forall|j: int| 0 <= j < i ==> v@[j] != x,
        decreases v@.len() - i,
    {
        if v[i] == x {
            return true;
        }
        i = i + 1;
    }
    false
}

/// Whether `a` and `b` hold the same symbols, regardless of order and
/// multiplicity.
fn same_symbol_set(a: &Vec<Keysym>, b: &Vec<Keysym>) -> (r: bool)
    ensures
        r == (a@.to_set() == b@.to_set()),
{
    let mut i: usize = 0;
    while i < a.len()
        invariant
            i <= a@.len(),
            forall|j: int| 0 <= j < i ==> b@.contains(#[trigger] a@[j]),
        decreases a@.len() - i,
    {
        if !vec_contains(b, a[i]) {
            proof {
                assert(a@.to_set().contains(a@[i as int]));
                assert(!b@.to_set().contains(a@[i as int]));
            }
            return false;
        }
        i = i + 1;
    }
    let mut k: usize = 0;
    while k < b.len()
        invariant
            k <= b@.len(),
            forall|j: int| 0 <= j < a@.len() ==> b@.contains(#[trigger] a@[j]),
            forall|j: int| 0 <= j < k ==> a@.contains(#[trigger] b@[j]),
        decreases b@.len() - k,
    {
        if !vec_contains(a, b[k]) {
            proof {
                assert(b@.to_set().contains(b@[k as int]));
                assert(!a@.to_set().contains(b@[k as int]));
            }
            return false;
        }
        k = k + 1;
    }
    proof {
        assert forall|y: Keysym| a@.to_set().contains(y) == b@.to_set().contains(y) by {
            if a@.contains(y) {
                let j = choose|j: int| 0 <= j < a@.len() && a@[j] == y;
                assert(b@.contains(a@[j]));
            }
            if b@.contains(y) {
                let j = choose|j: int| 0 <= j < b@.len() && b@[j] == y;
                assert(a@.contains(b@[j]));
            }
        }
        assert(a@.to_set() =~= b@.to_set());
    }
    true
}

/// The notification broadcast to watchers for one key event.
#[derive(Clone, Copy, PartialEq, Eq, Structural, Debug)]
pub struct KeyEventNotification {
    pub released: bool,
    pub layout: u32,
    pub keysym: Keysym,
    pub unichar: u32,
    pub keycode: u16,
}

/// The keyboard-monitor service state: the per-client session table, the
/// compositor-owned set of currently held virtual modifiers, and whether the
/// serving bus connection has been established yet.
#[derive(Debug)]
pub struct A11yKeyboardMonitorState {
    clients: Vec<ClientEntry>,
    active_virtual_mods: Vec<Keysym>,
    serving: bool,
}

impl A11yKeyboardMonitorState {
    /// Well-formed: identities in the session table are unique, and the
    /// active virtual-modifier list holds each symbol at most once.
    pub closed spec fn wf(self) -> bool {
        &&& entry_ids_unique(self.clients@)
        &&& symbols_distinct(self.active_virtual_mods@)
    }

    /// Whether a session exists for `id`.
    pub closed spec fn spec_known(self, id: Identity) -> bool {
        has_id(self.clients@, id)
    }

    /// The session state of `id`; a caller without a session is in its
    /// initial state.
    pub closed spec fn spec_session(self, id: Identity) -> SessionView {
        session_at(self.clients@, id)
    }

    /// The set of virtual modifiers the compositor currently holds active.
    pub closed spec fn spec_active(self) -> Set<Keysym> {
        self.active_virtual_mods@.to_set()
    }

    /// Whether the serving connection has been published.
    pub closed spec fn spec_serving(self) -> bool {
        self.serving
    }
}

/// Nothing a caller or the input pipeline can observe differs between the
/// two states.
pub open spec fn state_unchanged(
    pre: A11yKeyboardMonitorState,
    post: A11yKeyboardMonitorState,
) -> bool {
    &&& forall|x: Identity| #[trigger] post.spec_known(x) == pre.spec_known(x)
    &&& forall|x: Identity| #[trigger] post.spec_session(x) == pre.spec_session(x)
    &&& post.spec_active() == pre.spec_active()
    &&& post.spec_serving() == pre.spec_serving()
}

/// Exactly the session of `id` now reads `sess`; every other caller's
/// session, the active virtual modifiers, and the serving flag are as they
/// were.
pub open spec fn session_updated(
    pre: A11yKeyboardMonitorState,
    post: A11yKeyboardMonitorState,
    id: Identity,
    sess: SessionView,
) -> bool {
    &&& post.spec_known(id)
    &&& post.spec_session(id) == sess
    &&& forall|x: Identity| x != id ==> #[trigger] post.spec_known(x) == pre.spec_known(x)
    &&& forall|x: Identity| x != id ==> #[trigger] post.spec_session(x) == pre.spec_session(x)
    &&& post.spec_active() == pre.spec_active()
    &&& post.spec_serving() == pre.spec_serving()
}

/// The session after a keyboard grab.
pub open spec fn grab_applied(s: SessionView) -> SessionView {
    SessionView { grabbed: true, ..s }
}

/// The session after a keyboard ungrab.
pub open spec fn ungrab_applied(s: SessionView) -> SessionView {
    SessionView { grabbed: false, ..s }
}

/// The session after a watch subscription.
pub open spec fn watch_applied(s: SessionView) -> SessionView {
    SessionView { watched: true, ..s }
}

/// The session after a watch cancellation.
pub open spec fn unwatch_applied(s: SessionView) -> SessionView {
    SessionView { watched: false, ..s }
}

/// The session after a grab registration: the declared virtual modifiers and
/// the key grabs are replaced wholesale by what `vmods` and `strokes` decode
/// to; the grab and watch flags are untouched.
pub open spec fn grabs_replaced(
    s: SessionView,
    vmods: Seq<Keysym>,
    strokes: Seq<(u32, u32)>,
) -> SessionView {
    SessionView {
        virtual_mods: vmods.to_set(),
        key_grabs: decoded_grabs(vmods, strokes),
        ..s
    }
}

/// What each packed keystroke of `strokes` (a keysym and a raw modifier
/// word) decodes to under the client's declared virtual-modifier list.
pub open spec fn decoded_grabs(vmods: Seq<Keysym>, strokes: Seq<(u32, u32)>) -> Seq<GrabView> {
    Seq::new(strokes.len(), |j: int| spec_decode(vmods, strokes[j].0, strokes[j].1))
}

/// What one `grab_keyboard` call does: nothing without a sender identity,
/// otherwise it sets the sender's grab flag.
pub open spec fn grab_rel(
    pre: A11yKeyboardMonitorState,
    post: A11yKeyboardMonitorState,
    sender: Option<Identity>,
) -> bool {
    match sender {
        None => state_unchanged(pre, post),
        Some(id) => session_updated(pre, post, id, grab_applied(pre.spec_session(id))),
    }
}

/// What one `ungrab_keyboard` call does.
pub open spec fn ungrab_rel(
    pre: A11yKeyboardMonitorState,
    post: A11yKeyboardMonitorState,
    sender: Option<Identity>,
) -> bool {
    match sender {
        None => state_unchanged(pre, post),
        Some(id) => session_updated(pre, post, id, ungrab_applied(pre.spec_session(id))),
    }
}

/// What one `watch_keyboard` call does.
pub open spec fn watch_rel(
    pre: A11yKeyboardMonitorState,
    post: A11yKeyboardMonitorState,
    sender: Option<Identity>,
) -> bool {
    match sender {
        None => state_unchanged(pre, post),
        Some(id) => session_updated(pre, post, id, watch_applied(pre.spec_session(id))),
    }
}

/// What one `unwatch_keyboard` call does.
pub open spec fn unwatch_rel(
    pre: A11yKeyboardMonitorState,
    post: A11yKeyboardMonitorState,
    sender: Option<Identity>,
) -> bool {
    match sender {
        None => state_unchanged(pre, post),
        Some(id) => session_updated(pre, post, id, unwatch_applied(pre.spec_session(id))),
    }
}

/// What one `set_key_grabs` call does: nothing without a sender identity,
/// otherwise it replaces the sender's declared virtual modifiers and key
/// grabs, atomically, with what the arguments decode to.
pub open spec fn set_key_grabs_rel(
    pre: A11yKeyboardMonitorState,
    post: A11yKeyboardMonitorState,
    sender: Option<Identity>,
    vmods: Seq<Keysym>,
    strokes: Seq<(u32, u32)>,
) -> bool {
    match sender {
        None => state_unchanged(pre, post),
        Some(id) => session_updated(pre, post, id, grabs_replaced(pre.spec_session(id), vmods, strokes)),
    }
}

impl A11yKeyboardMonitorState {
    /// A fresh service state: no sessions, no active virtual modifiers, no
    /// serving connection yet.
    pub fn new() -> (r: A11yKeyboardMonitorState)
        ensures
            r.wf(),
            !r.spec_serving(),
            r.spec_active() == Set::<Keysym>::empty(),
            forall|id: Identity| !(#[trigger] r.spec_known(id)),
            forall|id: Identity| #[trigger] r.spec_session(id) == SessionView::initial(),
    {
        let r = A11yKeyboardMonitorState {
            clients: Vec::new(),
            active_virtual_mods: Vec::new(),
            serving: false,
        };
        proof {
            assert(r.spec_active() =~= Set::<Keysym>::empty());
        }
        r
    }

    /// Record that the serving connection is established and published;
    /// called once by the bus glue when its asynchronous setup completes.
    pub fn mark_serving(&mut self)
        requires
            old(self).wf(),
        ensures
            final(self).wf(),
            final(self).spec_serving(),
            final(self).spec_active() == old(self).spec_active(),
            forall|x: Identity| #[trigger] final(self).spec_known(x) == old(self).spec_known(x),
            forall|x: Identity| #[trigger] final(self).spec_session(x) == old(self).spec_session(x),
    {
        self.serving = true;
    }

    /// The index of `id`'s entry, if it has one.
    fn find_client(&self, id: Identity) -> (r: Option<usize>)
        ensures
            match r {
                Some(i) => 0 <= i < self.clients@.len() && self.clients@[i as int].id == id,
                None => !has_id(self.clients@, id),
            },
    {
        let mut i: usize = 0;
        while i < self.clients.len()
            invariant
                i <= self.clients@.len(),
                forall|j: int| 0 <= j < i ==> self.clients@[j].id != id,
            decreases self.clients@.len() - i,
        {
            if self.clients[i].id == id {
                return Some(i);
            }
            i = i + 1;
        }
        None
    }

    /// Take `id`'s session out of the table (the initial session if it had
    /// none), leaving every other caller untouched.
    fn extract_session(&mut self, id: Identity) -> (s: ClientSession)
        requires
            old(self).wf(),
        ensures
            final(self).wf(),
            s@ == old(self).spec_session(id),
            !final(self).spec_known(id),
            forall|x: Identity| x != id ==> #[trigger] final(self).spec_known(x) == old(
                self,
            ).spec_known(x),
            forall|x: Identity| x != id ==> #[trigger] final(self).spec_session(x) == old(
                self,
            ).spec_session(x),
            final(self).active_virtual_mods == old(self).active_virtual_mods,
            final(self).serving == old(self).serving,
    {
        match self.find_client(id) {
            Some(i) => {
                proof {
                    lemma_at_index(self.clients@, i as int);
                    lemma_remove_entry(self.clients@, i as int);
                }
                let entry = self.clients.remove(i);
                entry.session
            },
            None => {
                let s = ClientSession {
                    grabbed: false,
                    watched: false,
                    virtual_mods: Vec::new(),
                    key_grabs: Vec::new(),
                };
                proof {
                    assert(s.virtual_mods@.to_set() =~= Set::<Keysym>::empty());
                    assert(s.key_grabs@.map_values(|g: KeyGrab| g@) =~= Seq::<GrabView>::empty());
                    assert(s@ =~= SessionView::initial());
                }
                s
            },
        }
    }

    /// Put a session for an absent identity into the table.
    fn put_session(&mut self, id: Identity, session: ClientSession)
        requires
            old(self).wf(),
            !old(self).spec_known(id),
        ensures
            final(self).wf(),
            session_updated(*old(self), *final(self), id, session@),
            final(self).active_virtual_mods == old(self).active_virtual_mods,
            final(self).serving == old(self).serving,
    {
        proof {
            lemma_push_entry(self.clients@, ClientEntry { id, session });
        }
        self.clients.push(ClientEntry { id, session });
    }

    /// Protocol handler: the sender requests exclusive keyboard
    /// interception. A call without a sender identity is a silent no-op.
    pub fn grab_keyboard(&mut self, sender: Option<Identity>)
        requires
            old(self).wf(),
        ensures
            final(self).wf(),
            grab_rel(*old(self), *final(self), sender),
    {
        match sender {
            None => {},
            Some(id) => {
                let mut session = self.extract_session(id);
                session.grabbed = true;
                self.put_session(id, session);
            },
        }
    }

    /// Protocol handler: the sender releases its keyboard interception
    /// request. A call without a sender identity is a silent no-op.
    pub fn ungrab_keyboard(&mut self, sender: Option<Identity>)
        requires
            old(self).wf(),
        ensures
            final(self).wf(),
            ungrab_rel(*old(self), *final(self), sender),
    {
        match sender {
            None => {},
            Some(id) => {
                let mut session = self.extract_session(id);
                session.grabbed = false;
                self.put_session(id, session);
            },
        }
    }

    /// Protocol handler: the sender subscribes to the key-event feed. A call
    /// without a sender identity is a silent no-op.
    pub fn watch_keyboard(&mut self, sender: Option<Identity>)
        requires
            old(self).wf(),
        ensures
            final(self).wf(),
            watch_rel(*old(self), *final(self), sender),
    {
        match sender {
            None => {},
            Some(id) => {
                let mut session = self.extract_session(id);
                session.watched = true;
                self.put_session(id, session);
            },
        }
    }

    /// Protocol handler: the sender cancels its key-event subscription. A
    /// call without a sender identity is a silent no-op.
    pub fn unwatch_keyboard(&mut self, sender: Option<Identity>)
        requires
            old(self).wf(),
        ensures
            final(self).wf(),
            unwatch_rel(*old(self), *final(self), sender),
    {
        match sender {
            None => {},
            Some(id) => {
                let mut session = self.extract_session(id);
                session.watched = false;
                self.put_session(id, session);
            },
        }
    }

    /// Protocol handler: the sender replaces its declared virtual modifiers
    /// and registered key grabs with what `virtual_mods` and the packed
    /// `keystrokes` (keysym, raw modifier word) decode to. Both fields change
    /// together. A call without a sender identity is a silent no-op.
    pub fn set_key_grabs(
        &mut self,
        sender: Option<Identity>,
        virtual_mods: Vec<u32>,
        keystrokes: Vec<(u32, u32)>,
    )
        requires
            old(self).wf(),
        ensures
            final(self).wf(),
            set_key_grabs_rel(*old(self), *final(self), sender, virtual_mods@, keystrokes@),
    {
        match sender {
            None => {},
            Some(id) => {
                let ghost vmods = virtual_mods@;
                let ghost strokes = keystrokes@;
                let mut grabs: Vec<KeyGrab> = Vec::new();
                let mut i: usize = 0;
                while i < keystrokes.len()
                    invariant
                        i <= strokes.len(),
                        grabs@.len() == i,
                        keystrokes@ == strokes,
                        virtual_mods@ == vmods,
                        forall|j: int|
                            0 <= j < i ==> #[trigger] grabs@[j]@ == spec_decode(
                                vmods,
                                strokes[j].0,
                                strokes[j].1,
                            ),
                    decreases strokes.len() - i,
                {
                    let p = keystrokes[i];
                    let g = decode(&virtual_mods, p.0, p.1);
                    grabs.push(g);
                    i = i + 1;
                }
                let mut session = self.extract_session(id);
                session.virtual_mods = virtual_mods;
                session.key_grabs = grabs;
                proof {
                    assert(session@.key_grabs =~= decoded_grabs(vmods, strokes));
                    assert(session@ =~= grabs_replaced(old(self).spec_session(id), vmods, strokes));
                }
                self.put_session(id, session);
            },
        }
    }

    /// Drop `id`'s session, if any; reports whether one existed. After the
    /// call the caller is back in its initial state.
    pub fn remove_client(&mut self, id: Identity) -> (r: bool)
        requires
            old(self).wf(),
        ensures
            final(self).wf(),
            r == old(self).spec_known(id),
            !final(self).spec_known(id),
            final(self).spec_session(id) == SessionView::initial(),
            forall|x: Identity| x != id ==> #[trigger] final(self).spec_known(x) == old(
                self,
            ).spec_known(x),
            forall|x: Identity| x != id ==> #[trigger] final(self).spec_session(x) == old(
                self,
            ).spec_session(x),
            final(self).spec_active() == old(self).spec_active(),
            final(self).spec_serving() == old(self).spec_serving(),
    {
        match self.find_client(id) {
            Some(i) => {
                proof {
                    lemma_at_index(self.clients@, i as int);
                    lemma_remove_entry(self.clients@, i as int);
                }
                let _ = self.clients.remove(i);
                true
            },
            None => false,
        }
    }

    /// The input pipeline reports that a virtual modifier became held.
    pub fn add_active_virtual_mod(&mut self, keysym: Keysym)
        requires
            old(self).wf(),
        ensures
            final(self).wf(),
            final(self).spec_active() == old(self).spec_active().insert(keysym),
            forall|x: Identity| #[trigger] final(self).spec_known(x) == old(self).spec_known(x),
            forall|x: Identity| #[trigger] final(self).spec_session(x) == old(self).spec_session(
                x,
            ),
            final(self).spec_serving() == old(self).spec_serving(),
    {
        if !vec_contains(&self.active_virtual_mods, keysym) {
            proof {
                lemma_push_symbol(self.active_virtual_mods@, keysym);
            }
            self.active_virtual_mods.push(keysym);
        } else {
            proof {
                assert(old(self).spec_active() =~= old(self).spec_active().insert(keysym));
            }
        }
    }

    /// The input pipeline reports that a virtual modifier was released;
    /// reports whether it was held.
    pub fn remove_active_virtual_mod(&mut self, keysym: Keysym) -> (r: bool)
        requires
            old(self).wf(),
        ensures
            final(self).wf(),
            r == old(self).spec_active().contains(keysym),
            final(self).spec_active() == old(self).spec_active().remove(keysym),
            forall|x: Identity| #[trigger] final(self).spec_known(x) == old(self).spec_known(x),
            forall|x: Identity| #[trigger] final(self).spec_session(x) == old(self).spec_session(
                x,
            ),
            final(self).spec_serving() == old(self).spec_serving(),
    {
        let mut i: usize = 0;
        while i < self.active_virtual_mods.len()
            invariant
                *self == *old(self),
                old(self).wf(),
                i <= self.active_virtual_mods@.len(),
                forall|j: int| 0 <= j < i ==> self.active_virtual_mods@[j] != keysym,
            decreases self.active_virtual_mods@.len() - i,
        {
            if self.active_virtual_mods[i] == keysym {
                proof {
                    lemma_remove_symbol(self.active_virtual_mods@, i as int);
                }
                let _ = self.active_virtual_mods.remove(i);
                return true;
            }
            i = i + 1;
        }
        proof {
            assert(!self.active_virtual_mods@.contains(keysym));
            assert(self.spec_active() =~= self.spec_active().remove(keysym));
        }
        false
    }

    /// Hot-path query: does any client's declared virtual-modifier set hold
    /// this symbol?
    pub fn has_virtual_mod(&self, keysym: Keysym) -> (r: bool)
        requires
            self.wf(),
        ensures
            r == exists|id: Identity| (#[trigger] self.spec_session(id)).virtual_mods.contains(
                keysym,
            ),
    {
        let mut i: usize = 0;
        while i < self.clients.len()
            invariant
                self.wf(),
                i <= self.clients@.len(),
                forall|j: int|
                    0 <= j < i ==> !(#[trigger] self.clients@[j]).session@.virtual_mods.contains(
                        keysym,
                    ),
            decreases self.clients@.len() - i,
        {
            if vec_contains(&self.clients[i].session.virtual_mods, keysym) {
                proof {
                    lemma_at_index(self.clients@, i as int);
                    assert(self.spec_session(self.clients@[i as int].id).virtual_mods.contains(
                        keysym,
                    ));
                }
                return true;
            }
            i = i + 1;
        }
        proof {
            assert forall|id: Identity|
                !(#[trigger] self.spec_session(id)).virtual_mods.contains(keysym) by {
                if has_id(self.clients@, id) {
                    let j = choose|j: int|
                        0 <= j < self.clients@.len() && self.clients@[j].id == id;
                    lemma_at_index(self.clients@, j);
                } else {
                    assert(self.spec_session(id) == SessionView::initial());
                }
            }
        }
        false
    }

    /// Hot-path query: does any client currently request exclusive keyboard
    /// interception?
    pub fn has_keyboard_grab(&self) -> (r: bool)
        requires
            self.wf(),
        ensures
            r == exists|id: Identity| (#[trigger] self.spec_session(id)).grabbed,
    {
        let mut i: usize = 0;
        while i < self.clients.len()
            invariant
                self.wf(),
                i <= self.clients@.len(),
                forall|j: int| 0 <= j < i ==> !(#[trigger] self.clients@[j]).session@.grabbed,
            decreases self.clients@.len() - i,
        {
            if self.clients[i].session.grabbed {
                proof {
                    lemma_at_index(self.clients@, i as int);
                    assert(self.spec_session(self.clients@[i as int].id).grabbed);
                }
                return true;
            }
            i = i + 1;
        }
        proof {
            assert forall|id: Identity| !(#[trigger] self.spec_session(id)).grabbed by {
                if has_id(self.clients@, id) {
                    let j = choose|j: int|
                        0 <= j < self.clients@.len() && self.clients@[j].id == id;
                    lemma_at_index(self.clients@, j);
                } else {
                    assert(self.spec_session(id) == SessionView::initial());
                }
            }
        }
        false
    }

    /// Does any client currently watch the key-event feed?
    fn any_watcher(&self) -> (r: bool)
        requires
            self.wf(),
        ensures
            r == exists|id: Identity| (#[trigger] self.spec_session(id)).watched,
    {
        let mut i: usize = 0;
        while i < self.clients.len()
            invariant
                self.wf(),
                i <= self.clients@.len(),
                forall|j: int| 0 <= j < i ==> !(#[trigger] self.clients@[j]).session@.watched,
            decreases self.clients@.len() - i,
        {
            if self.clients[i].session.watched {
                proof {
                    lemma_at_index(self.clients@, i as int);
                    assert(self.spec_session(self.clients@[i as int].id).watched);
                }
                return true;
            }
            i = i + 1;
        }
        proof {
            assert forall|id: Identity| !(#[trigger] self.spec_session(id)).watched by {
                if has_id(self.clients@, id) {
                    let j = choose|j: int|
                        0 <= j < self.clients@.len() && self.clients@[j].id == id;
                    lemma_at_index(self.clients@, j);
                } else {
                    assert(self.spec_session(id) == SessionView::initial());
                }
            }
        }
        false
    }

    /// Hot-path query: is some registered key grab an exact match for this
    /// key, this real modifier mask, and the currently active
    /// virtual-modifier set? The virtual-modifier sets must be equal, not
    /// merely overlap in one direction.
    pub fn has_key_grab(&self, mods: u32, key: Keysym) -> (r: bool)
        requires
            self.wf(),
        ensures
            r == exists|id: Identity, j: int|
                0 <= j < self.spec_session(id).key_grabs.len() && grab_matches(
                    #[trigger] self.spec_session(id).key_grabs[j],
                    mods,
                    key,
                    self.spec_active(),
                ),
    {
        let mut i: usize = 0;
        while i < self.clients.len()
            invariant
                self.wf(),
                i <= self.clients@.len(),
                forall|p: int, q: int|
                    0 <= p < i && 0 <= q < self.clients@[p].session@.key_grabs.len()
                        ==> !grab_matches(
                        #[trigger] self.clients@[p].session@.key_grabs[q],
                        mods,
                        key,
                        self.spec_active(),
                    ),
            decreases self.clients@.len() - i,
        {
            let grabs = &self.clients[i].session.key_grabs;
            let mut k: usize = 0;
            while k < grabs.len()
                invariant
                    self.wf(),
                    i < self.clients@.len(),
                    k <= grabs@.len(),
                    grabs@ == self.clients@[i as int].session.key_grabs@,
                    forall|q: int|
                        0 <= q < k ==> !grab_matches(
                            #[trigger] self.clients@[i as int].session@.key_grabs[q],
                            mods,
                            key,
                            self.spec_active(),
                        ),
                decreases grabs@.len() - k,
            {
                let g = &grabs[k];
                if g.mods == mods && g.key == key && same_symbol_set(
                    &g.virtual_mods,
                    &self.active_virtual_mods,
                ) {
                    proof {
                        lemma_at_index(self.clients@, i as int);
                        let id = self.clients@[i as int].id;
                        assert(self.spec_session(id).key_grabs[k as int] == g@);
                        assert(grab_matches(
                            self.spec_session(id).key_grabs[k as int],
                            mods,
                            key,
                            self.spec_active(),
                        ));
                    }
                    return true;
                }
                k = k + 1;
            }
            i = i + 1;
        }
        proof {
            assert forall|id: Identity, j: int|
                !(0 <= j < self.spec_session(id).key_grabs.len() && grab_matches(
                    #[trigger] self.spec_session(id).key_grabs[j],
                    mods,
                    key,
                    self.spec_active(),
                )) by {
                if has_id(self.clients@, id) {
                    let p = choose|p: int|
                        0 <= p < self.clients@.len() && self.clients@[p].id == id;
                    lemma_at_index(self.clients@, p);
                } else {
                    assert(self.spec_session(id) == SessionView::initial());
                }
            }
        }
        false
    }

    /// The broadcast decision for one key event from the input pipeline:
    /// before the serving connection is published, or while nobody watches,
    /// nothing is emitted; otherwise the notification to dispatch to the
    /// watchers is returned, carrying the event unaltered. The call never
    /// blocks; the dispatch itself is the bus glue's fire-and-forget task.
    pub fn key_event(
        &self,
        released: bool,
        layout: u32,
        keysym: Keysym,
        unichar: u32,
        keycode: u16,
    ) -> (r: Option<KeyEventNotification>)
        requires
            self.wf(),
        ensures
            r == if self.spec_serving() && (exists|id: Identity|
                (#[trigger] self.spec_session(id)).watched) {
                Some(KeyEventNotification { released, layout, keysym, unichar, keycode })
            } else {
                None::<KeyEventNotification>
            },
    {
        if !self.serving {
            return None;
        }
        if !self.any_watcher() {
            return None;
        }
        Some(KeyEventNotification { released, layout, keysym, unichar, keycode })
    }
}

/// A registered grab matches a query exactly: same real modifier mask, same
/// key, and a virtual-modifier set equal to the active one.
pub open spec fn grab_matches(g: GrabView, mods: u32, key: Keysym, active: Set<Keysym>) -> bool {
    g.mods == mods && g.key == key && g.virtual_mods == active
}

/// Law: grabbing the keyboard is idempotent. After one `grab_keyboard` the
/// sender's grab flag is set, and repeating the call for the same sender
/// changes nothing a caller or the input pipeline can observe.
pub proof fn lemma_grab_keyboard_idempotent(
    s0: A11yKeyboardMonitorState,
    s1: A11yKeyboardMonitorState,
    s2: A11yKeyboardMonitorState,
    id: Identity,
)
    requires
        grab_rel(s0, s1, Some(id)),
        grab_rel(s1, s2, Some(id)),
    ensures
        s1.spec_session(id).grabbed,
        s2.spec_session(id).grabbed,
        state_unchanged(s1, s2),
{
    assert(s2.spec_session(id) == s1.spec_session(id));
}

/// Law: ungrabbing the keyboard is idempotent. After one `ungrab_keyboard`
/// the sender's grab flag is clear, and repeating the call for the same
/// sender changes nothing a caller or the input pipeline can observe.
pub proof fn lemma_ungrab_keyboard_idempotent(
    s0: A11yKeyboardMonitorState,
    s1: A11yKeyboardMonitorState,
    s2: A11yKeyboardMonitorState,
    id: Identity,
)
    requires
        ungrab_rel(s0, s1, Some(id)),
        ungrab_rel(s1, s2, Some(id)),
    ensures
        !s1.spec_session(id).grabbed,
        !s2.spec_session(id).grabbed,
        state_unchanged(s1, s2),
{
    assert(s2.spec_session(id) == s1.spec_session(id));
}

/// Law: watching the keyboard is idempotent, and so is unwatching it:
/// repeating either call for the same sender changes nothing a caller or
/// the input pipeline can observe.
pub proof fn lemma_watch_keyboard_idempotent(
    s0: A11yKeyboardMonitorState,
    s1: A11yKeyboardMonitorState,
    s2: A11yKeyboardMonitorState,
    id: Identity,
)
    requires
        watch_rel(s0, s1, Some(id)),
        watch_rel(s1, s2, Some(id)),
    ensures
        s1.spec_session(id).watched,
        state_unchanged(s1, s2),
{
    assert(s2.spec_session(id) == s1.spec_session(id));
}

/// Law: cancelling a watch is idempotent.
pub proof fn lemma_unwatch_keyboard_idempotent(
    s0: A11yKeyboardMonitorState,
    s1: A11yKeyboardMonitorState,
    s2: A11yKeyboardMonitorState,
    id: Identity,
)
    requires
        unwatch_rel(s0, s1, Some(id)),
        unwatch_rel(s1, s2, Some(id)),
    ensures
        !s1.spec_session(id).watched,
        state_unchanged(s1, s2),
{
    assert(s2.spec_session(id) == s1.spec_session(id));
}

/// Law: registering the same virtual modifiers and keystrokes twice in a
/// row changes nothing the second time.
pub proof fn lemma_set_key_grabs_idempotent(
    s0: A11yKeyboardMonitorState,
    s1: A11yKeyboardMonitorState,
    s2: A11yKeyboardMonitorState,
    id: Identity,
    vmods: Seq<Keysym>,
    strokes: Seq<(u32, u32)>,
)
    requires
        set_key_grabs_rel(s0, s1, Some(id), vmods, strokes),
        set_key_grabs_rel(s1, s2, Some(id), vmods, strokes),
    ensures
        state_unchanged(s1, s2),
{
    assert(s2.spec_session(id) == s1.spec_session(id));
}

/// Law: the handlers commute across different identities. Every handler's
/// effect with a sender has the shape "replace the sender's session by a
/// function of its old session"; applying one such step for `a` and one for
/// `b` with `a != b` reaches the same observable state in either order.
pub proof fn lemma_session_steps_commute(
    s0: A11yKeyboardMonitorState,
    s1: A11yKeyboardMonitorState,
    s2: A11yKeyboardMonitorState,
    t1: A11yKeyboardMonitorState,
    t2: A11yKeyboardMonitorState,
    a: Identity,
    b: Identity,
    f: spec_fn(SessionView) -> SessionView,
    g: spec_fn(SessionView) -> SessionView,
)
    requires
        a != b,
        session_updated(s0, s1, a, f(s0.spec_session(a))),
        session_updated(s1, s2, b, g(s1.spec_session(b))),
        session_updated(s0, t1, b, g(s0.spec_session(b))),
        session_updated(t1, t2, a, f(t1.spec_session(a))),
    ensures
        state_unchanged(s2, t2),
{
    assert(s2.spec_session(a) == f(s0.spec_session(a)));
    assert(t2.spec_session(a) == f(s0.spec_session(a)));
    assert(s2.spec_session(b) == g(s0.spec_session(b)));
    assert(t2.spec_session(b) == g(s0.spec_session(b)));
}

/// Law: `set_key_grabs` replaces, it does not merge. After two registrations
/// by the same sender, the sender's session holds exactly what the second
/// registration decodes to, as if the first had never happened.
pub proof fn lemma_set_key_grabs_replaces(
    s0: A11yKeyboardMonitorState,
    s1: A11yKeyboardMonitorState,
    s2: A11yKeyboardMonitorState,
    id: Identity,
    vmods1: Seq<Keysym>,
    strokes1: Seq<(u32, u32)>,
    vmods2: Seq<Keysym>,
    strokes2: Seq<(u32, u32)>,
)
    requires
        set_key_grabs_rel(s0, s1, Some(id), vmods1, strokes1),
        set_key_grabs_rel(s1, s2, Some(id), vmods2, strokes2),
    ensures
        s2.spec_session(id).virtual_mods == vmods2.to_set(),
        s2.spec_session(id).key_grabs == decoded_grabs(vmods2, strokes2),
        set_key_grabs_rel(s0, s2, Some(id), vmods2, strokes2),
{
    assert(grabs_replaced(s1.spec_session(id), vmods2, strokes2) == grabs_replaced(
        s0.spec_session(id),
        vmods2,
        strokes2,
    ));
}

} // verus!
