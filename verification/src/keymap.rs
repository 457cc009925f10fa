//! Scoped key sequences. Callers supply focus ancestry and a monotonic clock.
use crate::event::{no_modifiers, Key, Modifiers};
use crate::tree::Id;
use std::time::Duration;
use vstd::prelude::*;

verus! {

/// A key with the modifiers held.
#[derive(Clone, Copy, Debug, PartialEq, Eq, Structural)]
pub struct Stroke {
    pub key: Key,
    pub modifiers: Modifiers,
}

impl From<Key> for Stroke {
    fn from(key: Key) -> (s: Self) {
        Stroke { key, modifiers: Modifiers::none() }
    }
}

impl vstd::std_specs::convert::FromSpecImpl<Key> for Stroke {
    open spec fn obeys_from_spec() -> bool {
        true
    }

    open spec fn from_spec(key: Key) -> Stroke {
        Stroke { key, modifiers: no_modifiers() }
    }
}

/// A complete command, an incomplete sequence, or an unbound key.
#[derive(Debug, PartialEq, Eq)]
pub enum Match<C> {
    Command(C),
    Pending,
    Unbound,
}

/// The nanoseconds a duration holds, as `Duration::as_nanos` counts them.
pub uninterp spec fn nanos(d: Duration) -> nat;

/// The nanoseconds in `Duration::MAX`: `u64::MAX` seconds and 999,999,999
/// nanoseconds.
pub open spec fn max_nanos() -> nat {
    18446744073709551615nat * 1000000000nat + 999999999nat
}

/// The time `timeout` after `now`, as `Duration::saturating_add` gives it.
pub uninterp spec fn later(now: Duration, timeout: Duration) -> Duration;

/// Whether `now` is at or past `deadline`.
pub open spec fn reached(now: Duration, deadline: Duration) -> bool {
    nanos(now) >= nanos(deadline)
}

/// `Duration::saturating_add` from `std`: the sum, or `Duration::MAX` when
/// the sum overflows.
#[verifier::external_body]
pub(crate) fn saturating_after(now: Duration, timeout: Duration) -> (d: Duration)
    ensures
        d == later(now, timeout),
        nanos(d) == if nanos(now) + nanos(timeout) <= max_nanos() {
            nanos(now) + nanos(timeout)
        } else {
            max_nanos()
        },
{
    now.saturating_add(timeout)
}

/// `Duration`'s `>=` from `std`, which compares the time each holds.
#[verifier::external_body]
fn is_reached(now: Duration, deadline: Duration) -> (r: bool)
    ensures
        r == (nanos(now) >= nanos(deadline)),
{
    now >= deadline
}

struct Binding<C> {
    scope: Option<Id>,
    keys: Vec<Stroke>,
    command: C,
}

/// What a binding holds: the scope it belongs to, none for a global one,
/// its key sequence, and its command.
pub struct BindingView<C> {
    pub scope: Option<Id>,
    pub keys: Seq<Stroke>,
    pub command: C,
}

impl<C> View for Binding<C> {
    type V = BindingView<C>;

    closed spec fn view(&self) -> BindingView<C> {
        BindingView { scope: self.scope, keys: self.keys@, command: self.command }
    }
}

/// What a keymap holds: its bindings, oldest first, the strokes of an
/// incomplete sequence, the scopes they were typed in, when a binding
/// waiting for a longer sequence resolves, which binding that is, and how
/// long it waits.
pub struct KeymapView<C> {
    pub bindings: Seq<BindingView<C>>,
    pub pending: Seq<Stroke>,
    pub scopes: Seq<Id>,
    pub deadline: Option<Duration>,
    pub deferred: Option<int>,
    pub timeout: Duration,
}

/// Focused scopes take precedence over ancestors and global bindings.
/// Within a scope, newer bindings win. Changing focus clears an incomplete
/// sequence.
pub struct Keymap<C> {
    bindings: Vec<Binding<C>>,
    pending: Vec<Stroke>,
    scopes: Vec<Id>,
    deadline: Option<Duration>,
    deferred: Option<C>,
    timeout: Duration,
    /// The binding whose command `deferred` is a clone of.
    source: Ghost<Option<int>>,
}

/// The bindings' views.
pub open spec fn bindings_view<C>(bs: Seq<Binding<C>>) -> Seq<BindingView<C>> {
    bs.map_values(|b: Binding<C>| b@)
}

impl<C> View for Keymap<C> {
    type V = KeymapView<C>;

    closed spec fn view(&self) -> KeymapView<C> {
        KeymapView {
            bindings: bindings_view(self.bindings@),
            pending: self.pending@,
            scopes: self.scopes@,
            deadline: self.deadline,
            deferred: self.source@,
            timeout: self.timeout,
        }
    }
}

impl<C: Clone> Keymap<C> {
    /// The command a binding waiting for a longer sequence would give is a
    /// clone of that binding's.
    pub closed spec fn wf(&self) -> bool {
        match self.source@ {
            Some(i) => {
                &&& 0 <= i < self.bindings@.len()
                &&& self.deferred matches Some(c) && cloned(self.bindings@[i].command, c)
            },
            None => self.deferred is None,
        }
    }
}

/// A keymap with no incomplete sequence.
pub open spec fn cleared<C>(s: KeymapView<C>) -> KeymapView<C> {
    KeymapView { pending: Seq::empty(), deadline: None, deferred: None, ..s }
}

/// Whether a binding in `scope` starts with the strokes typed.
pub open spec fn applies<C>(b: BindingView<C>, scope: Option<Id>, pending: Seq<Stroke>) -> bool {
    &&& b.scope == scope
    &&& pending.len() <= b.keys.len()
    &&& b.keys.take(pending.len() as int) == pending
}

/// What the first `k` bindings say of the strokes typed in one scope:
/// whether any applies, whether one is longer, and the newest that matches
/// them exactly.
pub struct Scan {
    pub any: bool,
    pub longer: bool,
    pub exact: Option<int>,
}

pub open spec fn scan<C>(bs: Seq<BindingView<C>>, scope: Option<Id>, pending: Seq<Stroke>, k: int) -> Scan
    decreases k,
{
    if k <= 0 || k > bs.len() {
        Scan { any: false, longer: false, exact: None }
    } else {
        let s = scan(bs, scope, pending, k - 1);
        let b = bs[k - 1];
        if applies(b, scope, pending) {
            Scan {
                any: true,
                longer: s.longer || b.keys.len() > pending.len(),
                exact: if b.keys.len() == pending.len() {
                    Some(k - 1)
                } else {
                    s.exact
                },
            }
        } else {
            s
        }
    }
}

/// The scopes searched in order: the focused one and its ancestors, then
/// the global bindings.
pub open spec fn scope_at(scopes: Seq<Id>, j: int) -> Option<Id> {
    if j < scopes.len() {
        Some(scopes[j])
    } else {
        None
    }
}

/// How the strokes typed resolve in a scope: a binding's command, or a
/// wait for a longer sequence, with the exact match that a timeout gives.
pub enum Found {
    Command(int),
    Pending(Option<int>),
}

/// The first scope from the `j`th in which the strokes typed resolve.
pub open spec fn resolve_from<C>(bs: Seq<BindingView<C>>, pending: Seq<Stroke>, scopes: Seq<Id>, j: int) -> Option<
    Found,
>
    decreases scopes.len() + 1 - j,
{
    if j < 0 || j > scopes.len() {
        None
    } else {
        let s = scan(bs, scope_at(scopes, j), pending, bs.len() as int);
        if s.any && s.longer {
            Some(Found::Pending(s.exact))
        } else if s.any && s.exact is Some {
            Some(Found::Command(s.exact->0))
        } else {
            resolve_from(bs, pending, scopes, j + 1)
        }
    }
}

/// The keymap after the strokes typed resolve as `f` at `now`: a wait
/// remembers the exact match and sets the deadline; a command clears.
pub open spec fn after_resolve<C>(s: KeymapView<C>, f: Option<Found>, now: Duration) -> KeymapView<C> {
    match f {
        None => s,
        Some(Found::Pending(e)) => KeymapView {
            deferred: e,
            deadline: Some(later(now, s.timeout)),
            ..s
        },
        Some(Found::Command(_)) => cleared(s),
    }
}

/// What feeding a stroke answers: the command of a binding, a wait, or
/// nothing bound.
pub enum Outcome {
    Command(int),
    Pending,
    Unbound,
}

/// The answer a resolution gives.
pub open spec fn outcome(f: Found) -> Outcome {
    match f {
        Found::Command(i) => Outcome::Command(i),
        Found::Pending(_) => Outcome::Pending,
    }
}

/// Feeding `stroke` typed in `scopes` at `now`: a change of scopes clears
/// an incomplete sequence; the stroke extends the sequence; a longer
/// sequence that resolves nowhere is dropped and the stroke tried alone;
/// what still resolves nowhere is unbound.
pub open spec fn feed_spec<C>(s: KeymapView<C>, stroke: Stroke, scopes: Seq<Id>, now: Duration) -> (
    KeymapView<C>,
    Outcome,
) {
    let s1 = if s.scopes != scopes {
        KeymapView { scopes, ..cleared(s) }
    } else {
        s
    };
    let s2 = KeymapView { pending: s1.pending.push(stroke), ..s1 };
    let f = resolve_from(s2.bindings, s2.pending, scopes, 0);
    if f is None && s2.pending.len() > 1 {
        let s4 = KeymapView { pending: seq![stroke], ..cleared(s2) };
        let f2 = resolve_from(s4.bindings, s4.pending, scopes, 0);
        match f2 {
            Some(found) => (after_resolve(s4, f2, now), outcome(found)),
            None => (cleared(s4), Outcome::Unbound),
        }
    } else {
        match f {
            Some(found) => (after_resolve(s2, f, now), outcome(found)),
            None => (cleared(s2), Outcome::Unbound),
        }
    }
}

/// What scanning finds: an exact match is the newest binding in the scope
/// whose keys are the strokes typed, and a binding that applies without
/// a longer one is such a match.
proof fn scan_facts<C>(bs: Seq<BindingView<C>>, scope: Option<Id>, pending: Seq<Stroke>, k: int)
    requires
        0 <= k <= bs.len(),
    ensures
        scan(bs, scope, pending, k).exact matches Some(i) ==> {
            &&& 0 <= i < k
            &&& bs[i].scope == scope
            &&& bs[i].keys == pending
            &&& forall|j: int| i < j < k && bs[j].scope == scope ==> bs[j].keys != pending
        },
        scan(bs, scope, pending, k).any && !scan(bs, scope, pending, k).longer ==> scan(
            bs,
            scope,
            pending,
            k,
        ).exact is Some,
    decreases k,
{
    if k > 0 {
        scan_facts(bs, scope, pending, k - 1);
        let b = bs[k - 1];
        if applies(b, scope, pending) && b.keys.len() == pending.len() {
            assert(b.keys =~= b.keys.take(pending.len() as int));
        }
        assert forall|j: int| k - 1 <= j < k && bs[j].scope == scope && bs[j].keys == pending implies applies(
            bs[j],
            scope,
            pending,
        ) by {
            assert(bs[j].keys.take(pending.len() as int) =~= bs[j].keys);
        }
    }
}

/// Bindings of the focused scope take precedence over its ancestors' and
/// the global ones, and within a scope the newest binding of the strokes
/// typed wins: when one of the focused scope's bindings starts with them
/// and they resolve to a command, it is the command of the newest binding
/// in that scope whose keys are exactly those strokes.
pub proof fn focused_newest_binding_wins<C>(
    bs: Seq<BindingView<C>>,
    pending: Seq<Stroke>,
    scopes: Seq<Id>,
    i: int,
)
    requires
        scopes.len() > 0,
        scan(bs, Some(scopes[0]), pending, bs.len() as int).any,
        resolve_from(bs, pending, scopes, 0) == Some(Found::Command(i)),
    ensures
        0 <= i < bs.len(),
        bs[i].scope == Some(scopes[0]),
        bs[i].keys == pending,
        forall|j: int| i < j < bs.len() && bs[j].scope == Some(scopes[0]) ==> bs[j].keys != pending,
{
    scan_facts(bs, Some(scopes[0]), pending, bs.len() as int);
}

/// Whether `keys` starts with `prefix`.
fn starts_with(keys: &Vec<Stroke>, prefix: &Vec<Stroke>) -> (r: bool)
    ensures
        r == (prefix@.len() <= keys@.len() && keys@.take(prefix@.len() as int) == prefix@),
{
    if prefix.len() > keys.len() {
        return false;
    }
    let mut i: usize = 0;
    while i < prefix.len()
        invariant
            i <= prefix@.len() <= keys@.len(),
            forall|j: int| 0 <= j < i ==> keys@[j] == prefix@[j],
        decreases prefix@.len() - i,
    {
        if keys[i] != prefix[i] {
            assert(keys@.take(prefix@.len() as int)[i as int] != prefix@[i as int]);
            return false;
        }
        i = i + 1;
    }
    assert(keys@.take(prefix@.len() as int) =~= prefix@);
    true
}

/// Whether two optional scopes are the same.
fn same_scope(a: Option<Id>, b: Option<Id>) -> (r: bool)
    ensures
        r == (a == b),
{
    match (a, b) {
        (Some(x), Some(y)) => x == y,
        (None, None) => true,
        _ => false,
    }
}

/// Whether the scopes remembered are the ones given.
fn same_scopes(a: &Vec<Id>, b: &[Id]) -> (r: bool)
    ensures
        r == (a@ == b@),
{
    if a.len() != b.len() {
        return false;
    }
    let mut i: usize = 0;
    while i < a.len()
        invariant
            i <= a@.len() == b@.len(),
            forall|j: int| 0 <= j < i ==> a@[j] == b@[j],
        decreases a@.len() - i,
    {
        if a[i] != b[i] {
            return false;
        }
        i = i + 1;
    }
    assert(a@ =~= b@);
    true
}

/// The bindings that do not belong to `scope`, in order.
pub open spec fn without<C>(bs: Seq<BindingView<C>>, scope: Id) -> Seq<BindingView<C>>
    decreases bs.len(),
{
    if bs.len() == 0 {
        Seq::empty()
    } else if bs.last().scope == Some(scope) {
        without(bs.drop_last(), scope)
    } else {
        without(bs.drop_last(), scope).push(bs.last())
    }
}

impl<C: Clone> Keymap<C> {
    pub fn new(timeout: Duration) -> (k: Self)
        ensures
            k@ == (KeymapView::<C> {
                bindings: Seq::empty(),
                pending: Seq::empty(),
                scopes: Seq::empty(),
                deadline: None,
                deferred: None,
                timeout,
            }),
            k.wf(),
    {
        let k = Keymap {
            bindings: Vec::new(),
            pending: Vec::new(),
            scopes: Vec::new(),
            deadline: None,
            deferred: None,
            timeout,
            source: Ghost(None),
        };
        assert(k@.bindings =~= Seq::<BindingView<C>>::empty());
        k
    }

    /// Forget an incomplete sequence.
    pub fn clear(&mut self)
        ensures
            final(self)@ == cleared(old(self)@),
            final(self).wf(),
    {
        self.pending.clear();
        self.deadline = None;
        self.deferred = None;
        self.source = Ghost(None);
    }

    /// When a binding waiting for a longer sequence resolves, if one is.
    pub fn deadline(&self) -> (d: Option<Duration>)
        ensures
            d == self@.deadline,
    {
        self.deadline
    }

    /// Bind `keys` to `command` in `scope`; a missing scope creates a
    /// global binding. Empty sequences are rejected. Binding clears an
    /// incomplete sequence.
    pub fn bind<const N: usize>(&mut self, scope: Option<Id>, keys: [Stroke; N], command: C) -> (bound: bool)
        requires
            old(self).wf(),
        ensures
            bound == (N > 0),
            final(self).wf(),
            final(self)@ == if N > 0 {
                cleared(
                    KeymapView {
                        bindings: old(self)@.bindings.push(
                            BindingView { scope, keys: keys@, command },
                        ),
                        ..old(self)@
                    },
                )
            } else {
                old(self)@
            },
    {
        let strokes = keys.as_slice();
        if strokes.len() == 0 {
            return false;
        }
        let mut list: Vec<Stroke> = Vec::new();
        let mut i: usize = 0;
        while i < strokes.len()
            invariant
                i <= strokes@.len(),
                strokes@ == keys@,
                list@ == strokes@.take(i as int),
            decreases strokes@.len() - i,
        {
            list.push(strokes[i]);
            assert(list@ =~= strokes@.take(i + 1));
            i = i + 1;
        }
        assert(strokes@.take(strokes@.len() as int) =~= strokes@);
        let ghost before = self.bindings@;
        self.bindings.push(Binding { scope, keys: list, command });
        assert(bindings_view(self.bindings@) =~= bindings_view(before).push(
            BindingView { scope, keys: keys@, command },
        ));
        self.clear();
        true
    }

    /// Resolve an exact binding that was waiting for a longer sequence,
    /// once its deadline has come; the incomplete sequence is then cleared.
    pub fn expire(&mut self, now: Duration) -> (r: Option<C>)
        requires
            old(self).wf(),
        ensures
            final(self).wf(),
            match old(self)@.deadline {
                Some(d) => if reached(now, d) {
                    &&& final(self)@ == cleared(old(self)@)
                    &&& match old(self)@.deferred {
                        Some(i) => r matches Some(c) && cloned(old(self)@.bindings[i].command, c),
                        None => r is None,
                    }
                } else {
                    final(self)@ == old(self)@ && r is None
                },
                None => final(self)@ == old(self)@ && r is None,
            },
    {
        let due = match self.deadline {
            Some(d) => is_reached(now, d),
            None => false,
        };
        if due {
            let mut result: Option<C> = None;
            std::mem::swap(&mut result, &mut self.deferred);
            self.clear();
            result
        } else {
            None
        }
    }

    /// What the bindings say of the strokes typed in one scope.
    fn scan(&self, scope: Option<Id>) -> (r: (bool, bool, Option<usize>))
        ensures
            (Scan {
                any: r.0,
                longer: r.1,
                exact: match r.2 {
                    Some(i) => Some(i as int),
                    None => None,
                },
            }) == scan(self@.bindings, scope, self@.pending, self@.bindings.len() as int),
            r.2 matches Some(i) ==> i < self@.bindings.len(),
    {
        let ghost bs = self@.bindings;
        let mut any = false;
        let mut longer = false;
        let mut exact: Option<usize> = None;
        let mut k: usize = 0;
        while k < self.bindings.len()
            invariant
                k <= self.bindings@.len(),
                bs == self@.bindings,
                (Scan {
                    any,
                    longer,
                    exact: match exact {
                        Some(i) => Some(i as int),
                        None => None,
                    },
                }) == scan(bs, scope, self@.pending, k as int),
                exact matches Some(i) ==> i < k,
            decreases self.bindings@.len() - k,
        {
            let b = &self.bindings[k];
            assert(bs[k as int] == b@);
            if same_scope(b.scope, scope) && starts_with(&b.keys, &self.pending) {
                any = true;
                if b.keys.len() > self.pending.len() {
                    longer = true;
                }
                if b.keys.len() == self.pending.len() {
                    exact = Some(k);
                }
            }
            k = k + 1;
        }
        (any, longer, exact)
    }

    /// Resolve the strokes typed in the first scope, from the focused one
    /// to the root and then the global bindings, where a binding starts
    /// with them.
    fn resolve(&mut self, scopes: &[Id], now: Duration) -> (r: Option<Match<C>>)
        requires
            old(self).wf(),
        ensures
            final(self).wf(),
            final(self)@ == after_resolve(
                old(self)@,
                resolve_from(old(self)@.bindings, old(self)@.pending, scopes@, 0),
                now,
            ),
            match resolve_from(old(self)@.bindings, old(self)@.pending, scopes@, 0) {
                None => r is None,
                Some(Found::Pending(_)) => r matches Some(Match::Pending),
                Some(Found::Command(i)) => r matches Some(Match::Command(c)) && cloned(
                    old(self)@.bindings[i].command,
                    c,
                ),
            },
    {
        let ghost bs = self@.bindings;
        let ghost p = self@.pending;
        let mut j: usize = 0;
        loop
            invariant
                j <= scopes@.len(),
                self@ == old(self)@,
                self.wf(),
                bs == self@.bindings,
                p == self@.pending,
                resolve_from(bs, p, scopes@, 0) == resolve_from(bs, p, scopes@, j as int),
            decreases scopes@.len() - j,
        {
            let scope = if j < scopes.len() {
                Some(scopes[j])
            } else {
                None
            };
            let (any, longer, exact) = self.scan(scope);
            if any && longer {
                match exact {
                    Some(i) => {
                        let c = self.bindings[i].command.clone();
                        self.deferred = Some(c);
                        self.source = Ghost(Some(i as int));
                    },
                    None => {
                        self.deferred = None;
                        self.source = Ghost(None);
                    },
                }
                self.deadline = Some(saturating_after(now, self.timeout));
                return Some(Match::Pending);
            }
            if any {
                match exact {
                    Some(i) => {
                        let c = self.bindings[i].command.clone();
                        self.clear();
                        return Some(Match::Command(c));
                    },
                    None => {},
                }
            }
            if j == scopes.len() {
                assert(resolve_from(bs, p, scopes@, j + 1) is None);
                return None;
            }
            j = j + 1;
        }
    }

    /// Feed a stroke after checking `expire`. Pass scopes from the focused
    /// element to the root; call `clear` when focus changes without a
    /// subsequent key event.
    pub fn feed(&mut self, stroke: Stroke, scopes: &[Id], now: Duration) -> (m: Match<C>)
        requires
            old(self).wf(),
        ensures
            final(self).wf(),
            final(self)@ == feed_spec(old(self)@, stroke, scopes@, now).0,
            match feed_spec(old(self)@, stroke, scopes@, now).1 {
                Outcome::Command(i) => m matches Match::Command(c) && cloned(
                    old(self)@.bindings[i].command,
                    c,
                ),
                Outcome::Pending => m is Pending,
                Outcome::Unbound => m is Unbound,
            },
    {
        if !same_scopes(&self.scopes, scopes) {
            self.clear();
            let mut copy: Vec<Id> = Vec::new();
            let mut i: usize = 0;
            while i < scopes.len()
                invariant
                    i <= scopes@.len(),
                    copy@ == scopes@.take(i as int),
                decreases scopes@.len() - i,
            {
                copy.push(scopes[i]);
                assert(copy@ =~= scopes@.take(i + 1));
                i = i + 1;
            }
            assert(scopes@.take(scopes@.len() as int) =~= scopes@);
            self.scopes = copy;
        }
        self.pending.push(stroke);
        let result = self.resolve(scopes, now);
        match result {
            Some(r) => r,
            None => {
                if self.pending.len() > 1 {
                    self.clear();
                    self.pending.push(stroke);
                    assert(self.pending@ =~= seq![stroke]);
                    match self.resolve(scopes, now) {
                        Some(r) => {
                            return r;
                        },
                        None => {},
                    }
                }
                self.clear();
                Match::Unbound
            },
        }
    }

    /// Remove the bindings of a scope, when its owning element is
    /// destroyed. Removing clears an incomplete sequence.
    pub fn remove(&mut self, scope: Id)
        requires
            old(self).wf(),
        ensures
            final(self).wf(),
            final(self)@ == cleared(
                KeymapView { bindings: without(old(self)@.bindings, scope), ..old(self)@ },
            ),
    {
        self.clear();
        let mut rest: Vec<Binding<C>> = Vec::new();
        std::mem::swap(&mut rest, &mut self.bindings);
        let ghost all = bindings_view(rest@);
        let ghost start = rest@;
        let mut k: usize = 0;
        let ghost n = rest@.len();
        while rest.len() > 0
            invariant
                all == bindings_view(start),
                n == start.len(),
                rest@ == start.skip(n - rest@.len()),
                bindings_view(self.bindings@) == without(all.take(n - rest@.len()), scope),
                self.source@ is None,
                self.deferred is None,
                self.pending@ == Seq::<Stroke>::empty(),
                self.deadline is None,
                self.scopes@ == old(self)@.scopes,
                self.timeout == old(self)@.timeout,
                rest@.len() <= n,
            decreases rest@.len(),
        {
            let ghost done = n - rest@.len();
            let b = rest.remove(0);
            proof {
                assert(start.skip(done)[0] == b);
                assert(rest@ =~= start.skip(done + 1));
                assert(all.take(done + 1).drop_last() =~= all.take(done));
                assert(all.take(done + 1).last() == b@);
            }
            let keep = match b.scope {
                Some(s) => s != scope,
                None => true,
            };
            if keep {
                let ghost before = self.bindings@;
                self.bindings.push(b);
                assert(bindings_view(self.bindings@) =~= bindings_view(before).push(b@));
            }
        }
        assert(all.take(n as int) =~= all);
    }
}

} // verus!
