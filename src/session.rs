//! Per-event session state: the incoming path, its payload that can be
//! taken once, and the log of actions emitted while handling it.

use vstd::prelude::*;
use crate::codec::{symbol_of, EventSymbol};
use crate::path::{borrow_scope, path_view, same_path};
use serde_json::Value;
use core::marker::PhantomData;
use vstd::string::{StrSliceExecFns, StringExecFns};

verus! {

/// Payloads are JSON values from serde_json, carried through unread.
#[verifier::external_type_specification]
#[verifier::external_body]
pub struct ExValue(serde_json::Value);

/// An action as the renderer receives it.
pub ghost struct ActionView<T> {
    pub path: Seq<Seq<char>>,
    pub debug_symbol: Option<Seq<char>>,
    pub data: T,
}

/// The text of an optional label.
pub open spec fn label_view(s: Option<String>) -> Option<Seq<char>> {
    match s {
        Some(t) => Some(t@),
        None => None,
    }
}

fn copy_label(s: &Option<String>) -> (r: Option<String>)
    ensures
        label_view(r) == label_view(*s),
{
    match s {
        Some(t) => Some(t.clone()),
        None => None,
    }
}

/// Identifies the events that come from one place of the interface; `T` is
/// the type of their payload, which the wire does not carry.
pub struct EventKey<T> {
    event_path: Vec<String>,
    debug_symbol: Option<String>,
    _marker: PhantomData<T>,
}

impl<T> EventKey<T> {
    /// The path that this key matches.
    pub closed spec fn path_view(&self) -> Seq<Seq<char>> {
        path_view(self.event_path@)
    }

    /// The key's label, which matching ignores.
    pub closed spec fn debug_view(&self) -> Option<Seq<char>> {
        label_view(self.debug_symbol)
    }

    /// The segments of the path that this key matches.
    pub fn get_dynamic_symbols(&self) -> (r: Vec<String>)
        ensures
            path_view(r@) == self.path_view(),
    {
        borrow_scope(&self.event_path)
    }
}

/// Identifies one kind of action that the renderer was told about; `T` is
/// the type of its payload.
pub struct ActionKey<T> {
    action_path: Vec<String>,
    debug_symbol: Option<String>,
    _marker: PhantomData<T>,
}

impl<T> ActionKey<T> {
    /// The path that actions of this key carry.
    pub closed spec fn path_view(&self) -> Seq<Seq<char>> {
        path_view(self.action_path@)
    }

    /// The key's label, which matching ignores.
    pub closed spec fn debug_view(&self) -> Option<Seq<char>> {
        label_view(self.debug_symbol)
    }

    /// The segments of the key's path.
    pub fn action_path(&self) -> (r: Vec<String>)
        ensures
            path_view(r@) == self.path_view(),
    {
        borrow_scope(&self.action_path)
    }

    /// The key's label.
    pub fn debug_symbol(&self) -> (r: Option<String>)
        ensures
            label_view(r) == self.debug_view(),
    {
        copy_label(&self.debug_symbol)
    }

    /// Labels the key; the path is kept.
    pub fn with_debug_symbol(self, data: String) -> (r: ActionKey<T>)
        ensures
            r.path_view() == self.path_view(),
            r.debug_view() == Some(data@),
    {
        let mut key = self;
        key.debug_symbol = Some(data);
        key
    }

    /// A key at `action_path`, without a label.
    pub(crate) fn at_path(action_path: Vec<String>) -> (r: ActionKey<T>)
        ensures
            r.path_view() == path_view(action_path@),
            r.debug_view() is None,
    {
        ActionKey { action_path, debug_symbol: None, _marker: PhantomData }
    }

    fn duplicate(&self) -> (r: ActionKey<T>)
        ensures
            r.path_view() == self.path_view(),
            r.debug_view() == self.debug_view(),
    {
        ActionKey {
            action_path: borrow_scope(&self.action_path),
            debug_symbol: copy_label(&self.debug_symbol),
            _marker: PhantomData,
        }
    }
}

/// An event as the application sees it: its key and its payload.
pub struct Event<T> {
    pub key: EventKey<T>,
    pub data: T,
}

/// One entry of an action log: the key it was emitted under and its payload.
pub struct Action<T> {
    key: ActionKey<T>,
    data: T,
}

impl<T> View for Action<T> {
    type V = ActionView<T>;

    closed spec fn view(&self) -> ActionView<T> {
        ActionView {
            path: self.key.path_view(),
            debug_symbol: self.key.debug_view(),
            data: self.data,
        }
    }
}

impl<T> Action<T> {
    /// An action of `key` with payload `data`.
    pub(crate) fn new(key: ActionKey<T>, data: T) -> (r: Action<T>)
        ensures
            r@ == (ActionView { path: key.path_view(), debug_symbol: key.debug_view(), data }),
    {
        Action { key, data }
    }

    /// The segments of the action's path.
    pub fn action_path(&self) -> (r: Vec<String>)
        ensures
            path_view(r@) == self@.path,
    {
        self.key.action_path()
    }

    /// The action's label.
    pub fn debug_symbol(&self) -> (r: Option<String>)
        ensures
            label_view(r) == self@.debug_symbol,
    {
        self.key.debug_symbol()
    }

    /// The action's payload.
    pub fn data(&self) -> (r: &T)
        ensures
            *r == self@.data,
    {
        &self.data
    }
}

/// What each entry of an action log looks like to the renderer.
pub open spec fn log_view(log: Seq<Action<Value>>) -> Seq<ActionView<Value>> {
    log.map_values(|a: Action<Value>| a@)
}


/// The scope segment under which every client starts.
pub open spec fn main_scope() -> Seq<Seq<char>> {
    seq!["main"@]
}

/// The first path segment that marks the event that starts a session.
pub open spec fn mount_marker() -> Seq<char> {
    "root_app_ready"@
}

/// The path of the action that replaces the whole displayed tree.
pub open spec fn root_mount_path() -> Seq<Seq<char>> {
    seq!["root_mount"@]
}

/// What a key takes from a root: the payload, if the paths are equal and
/// it is still there.
pub open spec fn taken(key: Seq<Seq<char>>, path: Seq<Seq<char>>, data: Option<Value>) -> Option<
    Value,
> {
    if key == path {
        data
    } else {
        None
    }
}

/// The payload that a root holds after a key tried to take it.
pub open spec fn left_after_take(
    key: Seq<Seq<char>>,
    path: Seq<Seq<char>>,
    data: Option<Value>,
) -> Option<Value> {
    if key == path {
        None
    } else {
        data
    }
}

/// `after` is `before` with one more action at `["root_mount"]`, unlabelled
/// and carrying `data`, behind all the earlier ones.
pub open spec fn root_ui_set(before: RootUi, after: RootUi, data: Value) -> bool {
    &&& after.event_path_view() == before.event_path_view()
    &&& after.event_data_view() == before.event_data_view()
    &&& after.actions_view().len() == before.actions_view().len() + 1
    &&& after.actions_view().take(before.actions_view().len() as int) == before.actions_view()
    &&& after.actions_view().last().path == root_mount_path()
    &&& after.actions_view().last().debug_symbol is None
    &&& after.actions_view().last().data == data
}

/// Once a key has taken the payload, the root holds none, and any later
/// take with a key of the event's path finds nothing: the payload is taken
/// exactly once.
pub proof fn lemma_take_once(
    key: Seq<Seq<char>>,
    later: Seq<Seq<char>>,
    path: Seq<Seq<char>>,
    data: Option<Value>,
)
    requires
        taken(key, path, data) is Some,
        later == path,
    ensures
        left_after_take(key, path, data) is None,
        taken(later, path, left_after_take(key, path, data)) is None,
        left_after_take(later, path, left_after_take(key, path, data)) is None,
{
}

/// A key whose path differs from the event's leaves the payload where it
/// is, and a key of the event's path then takes it.
pub proof fn lemma_mismatch_keeps_data(
    key: Seq<Seq<char>>,
    other: Seq<Seq<char>>,
    path: Seq<Seq<char>>,
    data: Option<Value>,
)
    requires
        key != path,
        other == path,
    ensures
        taken(key, path, data) is None,
        left_after_take(key, path, data) == data,
        taken(other, path, left_after_take(key, path, data)) == data,
{
}

/// Setting the root interface twice appends two `["root_mount"]` actions,
/// carrying the two components in order, behind the earlier log; neither
/// replaces the other.
pub proof fn lemma_root_ui_twice(
    first: RootUi,
    second: RootUi,
    third: RootUi,
    one: Value,
    two: Value,
)
    requires
        root_ui_set(first, second, one),
        root_ui_set(second, third, two),
    ensures
        third.actions_view()[first.actions_view().len() as int].data == one,
        third.actions_view()[first.actions_view().len() + 1int].data == two,
        third.actions_view().len() == first.actions_view().len() + 2,
        third.actions_view().take(first.actions_view().len() as int) == first.actions_view(),
        third.actions_view()[first.actions_view().len() as int].path == root_mount_path(),
        third.actions_view()[first.actions_view().len() + 1int].path == root_mount_path(),
{
    let n = first.actions_view().len() as int;
    assert(third.actions_view().take(n) =~= third.actions_view().take(n + 1).take(n));
    assert(third.actions_view()[n] == third.actions_view().take(n + 1)[n]);
}

/// Why an event key could not take the payload of an event.
pub enum TakeDataError {
    /// The key's path is not the event's path.
    DifferingEventPaths { existing: Vec<String>, incomming: Vec<String> },
    /// The payload was taken before.
    DataAlreadyTaken,
    /// The payload is not a value of the key's type.
    FailedToDeserialize { serde_error: String },
}

/// Why the mount check of an event failed.
pub enum TakeMountEventError {
    /// The event's path has no segment.
    EmptyEventPath,
    /// The event is a mount event but carries no payload.
    NoEventData,
    /// The payload of a mount event is not of the mount shape.
    FailedToDeserializeMountData { serde_error: String },
}

/// The payload of the event that starts a session.
pub struct MountEventData {
    pub token: Option<String>,
}

/// Maps the outcome of reading a mount payload to the mount result.
pub fn mount_data_from(decoded: Result<Option<String>, String>) -> (r: Result<
    MountEventData,
    TakeMountEventError,
>)
    ensures
        decoded matches Ok(t) ==> (r matches Ok(m) && label_view(m.token) == label_view(t)),
        decoded matches Err(e) ==> (r matches Err(
            TakeMountEventError::FailedToDeserializeMountData { serde_error },
        ) && serde_error@ == e@),
{
    match decoded {
        Ok(token) => Ok(MountEventData { token }),
        Err(e) => Err(TakeMountEventError::FailedToDeserializeMountData { serde_error: e }),
    }
}

/// An event as it arrives: its path and its payload.
pub struct RawEvent {
    event_path: Vec<String>,
    data: Value,
}

impl RawEvent {
    /// The event's path.
    pub closed spec fn path_view(&self) -> Seq<Seq<char>> {
        path_view(self.event_path@)
    }

    /// The event's payload.
    pub closed spec fn data_view(&self) -> Value {
        self.data
    }

    /// An event at `event_path` with payload `data`.
    pub fn new(event_path: Vec<String>, data: Value) -> (r: RawEvent)
        ensures
            r.path_view() == path_view(event_path@),
            r.data_view() == data,
    {
        RawEvent { event_path, data }
    }
}

/// The actions that one event produced.
pub struct UiResponse {
    actions: Vec<Action<Value>>,
}

impl UiResponse {
    /// The actions, in the order they were emitted.
    pub closed spec fn actions_view(&self) -> Seq<ActionView<Value>> {
        log_view(self.actions@)
    }

    /// Hands out the actions.
    pub fn into_actions(self) -> (r: Vec<Action<Value>>)
        ensures
            log_view(r@) == self.actions_view(),
    {
        self.actions
    }
}

/// The state of one event while it is handled.
pub struct RootUi {
    event_path: Vec<String>,
    event_data: Option<Value>,
    actions: Vec<Action<Value>>,
}

impl RootUi {
    /// The path of the event.
    pub closed spec fn event_path_view(&self) -> Seq<Seq<char>> {
        path_view(self.event_path@)
    }

    /// The payload of the event, while it has not been taken.
    pub closed spec fn event_data_view(&self) -> Option<Value> {
        self.event_data
    }

    /// The actions emitted so far.
    pub closed spec fn actions_view(&self) -> Seq<ActionView<Value>> {
        log_view(self.actions@)
    }

    /// The state for a fresh event: its payload present, no action yet.
    pub fn from_event(event: RawEvent) -> (r: RootUi)
        ensures
            r.event_path_view() == event.path_view(),
            r.event_data_view() == Some(event.data_view()),
            r.actions_view() == Seq::<ActionView<Value>>::empty(),
    {
        let r = RootUi { event_path: event.event_path, event_data: Some(event.data), actions: Vec::new() };
        assert(r.actions_view() =~= Seq::<ActionView<Value>>::empty());
        r
    }

    /// The handle through which the event is handled, scoped under `main`.
    /// It takes the root, so no second handle can exist beside it; the root
    /// comes back from `Client::into_root`.
    pub fn get_client(self) -> (r: Client)
        ensures
            r.scope_view() == main_scope(),
            r.root() == self,
    {
        let scope = vec![String::from_str("main")];
        assert(path_view(scope@) =~= main_scope());
        Client { scope, root: self }
    }

    /// Checks whether the event starts a session. Only the first path
    /// segment is read: for the mount marker the payload is taken and handed
    /// out; for any other segment nothing changes.
    pub fn take_mount_event(&mut self) -> (r: Result<Option<Value>, TakeMountEventError>)
        ensures
            final(self).event_path_view() == old(self).event_path_view(),
            final(self).actions_view() == old(self).actions_view(),
            old(self).event_path_view().len() == 0 ==> (r matches Err(
                TakeMountEventError::EmptyEventPath,
            ) && final(self).event_data_view() == old(self).event_data_view()),
            old(self).event_path_view().len() > 0 && old(self).event_path_view()[0]
                != mount_marker() ==> (r matches Ok(None) && final(self).event_data_view() == old(
                self,
            ).event_data_view()),
            old(self).event_path_view().len() > 0 && old(self).event_path_view()[0]
                == mount_marker() ==> final(self).event_data_view() is None && (match old(
                self,
            ).event_data_view() {
                Some(v) => r == Ok::<Option<Value>, TakeMountEventError>(Some(v)),
                None => r matches Err(TakeMountEventError::NoEventData),
            }),
    {
        if self.event_path.len() == 0 {
            return Err(TakeMountEventError::EmptyEventPath);
        }
        let marker = String::from_str("root_app_ready");
        if self.event_path[0] == marker {
            match self.event_data.take() {
                Some(v) => Ok(Some(v)),
                None => Err(TakeMountEventError::NoEventData),
            }
        } else {
            Ok(None)
        }
    }

    /// Appends an action at `["root_mount"]` that carries the component to
    /// display as the whole tree. Earlier entries are kept.
    pub fn set_root_ui<I: IntoComponentIndex>(&mut self, ui: I)
        ensures
            root_ui_set(*old(self), *final(self), ui.index().value()),
    {
        let data = ui.into_index().to_value();
        let path = vec![String::from_str("root_mount")];
        let key = ActionKey::<Value> { action_path: path, debug_symbol: None, _marker: PhantomData };
        assert(key.path_view() =~= root_mount_path());
        self.actions.push(Action { key, data });
        assert(self.actions_view().take(old(self).actions_view().len() as int) =~= old(
            self,
        ).actions_view());
    }

    /// The path of the event.
    pub fn event_path(&self) -> (r: Vec<String>)
        ensures
            path_view(r@) == self.event_path_view(),
    {
        borrow_scope(&self.event_path)
    }

    /// Whether the payload is still there.
    pub fn has_event_data(&self) -> (r: bool)
        ensures
            r == self.event_data_view() is Some,
    {
        self.event_data.is_some()
    }

    /// Ends the event, handing out its actions.
    pub fn into_response(self) -> (r: UiResponse)
        ensures
            r.actions_view() == self.actions_view(),
    {
        UiResponse { actions: self.actions }
    }
}

/// The one handle through which an event's payload is taken and actions
/// are emitted.
pub struct Client {
    scope: Vec<String>,
    root: RootUi,
}

impl Client {
    /// The scope prefix that keys derived from this handle start with.
    pub closed spec fn scope_view(&self) -> Seq<Seq<char>> {
        path_view(self.scope@)
    }

    /// The state of the event being handled.
    pub closed spec fn root(&self) -> RootUi {
        self.root
    }

    /// A read-only view that shares the handle's scope.
    pub fn ui(&self) -> (r: Ui)
        ensures
            r.scope_view() == self.scope_view(),
    {
        Ui { current_event_scope: borrow_scope(&self.scope) }
    }

    /// Gives the root back, with everything done through this handle.
    pub fn into_root(self) -> (r: RootUi)
        ensures
            r == self.root(),
    {
        self.root
    }
}

/// A read-only view of a scope, from which event keys are derived.
pub struct Ui {
    current_event_scope: Vec<String>,
}

impl Ui {
    /// The scope prefix of this view.
    pub closed spec fn scope_view(&self) -> Seq<Seq<char>> {
        path_view(self.current_event_scope@)
    }

    /// A key for the events of this scope.
    pub fn event_key<T>(&self) -> (r: EventKey<T>)
        ensures
            r.path_view() == self.scope_view(),
            r.debug_view() is None,
    {
        EventKey {
            event_path: borrow_scope(&self.current_event_scope),
            debug_symbol: None,
            _marker: PhantomData,
        }
    }

    /// A view one segment deeper; this view is left as it is.
    pub fn scope<S: EventSymbol>(&self, symbol: S) -> (r: Ui)
        ensures
            r.scope_view() == self.scope_view().push(symbol_of(symbol)),
    {
        let mut current_event_scope = borrow_scope(&self.current_event_scope);
        current_event_scope.push(symbol.to_string());
        assert(path_view(current_event_scope@) =~= self.scope_view().push(symbol_of(symbol)));
        Ui { current_event_scope }
    }
}

impl<T> EventKey<T> {
    /// Takes the event's payload, when this key's path is the event's path
    /// and the payload is still there. On a differing path nothing changes.
    pub fn take_data(&self, client: &mut Client) -> (r: Result<Value, TakeDataError>)
        ensures
            final(client).scope_view() == old(client).scope_view(),
            final(client).root().event_path_view() == old(client).root().event_path_view(),
            final(client).root().actions_view() == old(client).root().actions_view(),
            final(client).root().event_data_view() == left_after_take(
                self.path_view(),
                old(client).root().event_path_view(),
                old(client).root().event_data_view(),
            ),
            r is Ok <==> taken(
                self.path_view(),
                old(client).root().event_path_view(),
                old(client).root().event_data_view(),
            ) is Some,
            r matches Ok(v) ==> taken(
                self.path_view(),
                old(client).root().event_path_view(),
                old(client).root().event_data_view(),
            ) == Some(v),
            self.path_view() != old(client).root().event_path_view() ==> (r matches Err(
                TakeDataError::DifferingEventPaths { existing, incomming },
            ) && path_view(existing@) == self.path_view() && path_view(incomming@) == old(
                client,
            ).root().event_path_view()),
            self.path_view() == old(client).root().event_path_view() && old(
                client,
            ).root().event_data_view() is None ==> r matches Err(TakeDataError::DataAlreadyTaken),
    {
        if !same_path(&self.event_path, &client.root.event_path) {
            return Err(
                TakeDataError::DifferingEventPaths {
                    existing: borrow_scope(&self.event_path),
                    incomming: borrow_scope(&client.root.event_path),
                },
            );
        }
        match client.root.event_data.take() {
            Some(v) => Ok(v),
            None => Err(TakeDataError::DataAlreadyTaken),
        }
    }
}

/// The decimal digit for a value below ten.
pub open spec fn decimal_digit(d: int) -> char {
    seq!['0', '1', '2', '3', '4', '5', '6', '7', '8', '9'][d]
}

/// The decimal text of `n`, without leading zeros.
pub open spec fn decimal_of(n: u64) -> Seq<char>
    decreases n,
{
    if n < 10 {
        seq![decimal_digit(n as int)]
    } else {
        decimal_of(n / 10).push(decimal_digit((n % 10) as int))
    }
}

fn digit_text(d: u64) -> (r: &'static str)
    requires
        d < 10,
    ensures
        r@ == seq![decimal_digit(d as int)],
{
    let digits = "0123456789";
    proof {
        reveal_strlit("0123456789");
    }
    let r = digits.substring_char(d as usize, (d + 1) as usize);
    assert(r@ =~= seq![decimal_digit(d as int)]);
    r
}

/// Writes `n` in decimal.
pub fn decimal_text(n: u64) -> (r: String)
    ensures
        r@ == decimal_of(n),
    decreases n,
{
    if n < 10 {
        String::from_str(digit_text(n))
    } else {
        let head = decimal_text(n / 10);
        let r = head.concat(digit_text(n % 10));
        assert(r@ =~= decimal_of(n / 10).push(decimal_digit((n % 10) as int)));
        r
    }
}

/// Relies on rand::random: a number drawn from the thread-local generator;
/// nothing is promised of which one.
#[verifier::external_body]
fn random_u64() -> (r: u64) {
    rand::random::<u64>()
}

impl<T> ActionKey<T> {
    /// A key whose path is one segment: the decimal text of `n`. It does
    /// not depend on any scope.
    pub fn from_number(n: u64) -> (r: ActionKey<T>)
        ensures
            r.path_view() == seq![decimal_of(n)],
            r.debug_view() is None,
    {
        let action_path = vec![decimal_text(n)];
        assert(path_view(action_path@) =~= seq![decimal_of(n)]);
        ActionKey { action_path, debug_symbol: None, _marker: PhantomData }
    }

    /// A key whose path is one segment: the decimal text of a random number.
    pub fn create() -> (r: ActionKey<T>)
        ensures
            exists|n: u64| r.path_view() == seq![#[trigger] decimal_of(n)],
            r.debug_view() is None,
    {
        let n: u64 = random_u64();
        ActionKey::from_number(n)
    }

    /// Appends an action of this key with payload `data` to the log; each
    /// call adds its own entry.
    pub fn emit(&self, data: Value, client: &mut Client)
        ensures
            final(client).scope_view() == old(client).scope_view(),
            final(client).root().event_path_view() == old(client).root().event_path_view(),
            final(client).root().event_data_view() == old(client).root().event_data_view(),
            final(client).root().actions_view() == old(client).root().actions_view().push(
                ActionView { path: self.path_view(), debug_symbol: self.debug_view(), data },
            ),
    {
        let key = self.duplicate();
        let path = key.action_path;
        let debug_symbol = key.debug_symbol;
        let key = ActionKey::<Value> { action_path: path, debug_symbol, _marker: PhantomData };
        client.root.actions.push(Action { key, data });
        assert(client.root().actions_view() =~= old(client).root().actions_view().push(
            ActionView { path: self.path_view(), debug_symbol: self.debug_view(), data },
        ));
    }
}

/// A component that can be displayed as the whole tree.
pub trait ComponentIndex: Sized {
    /// The reference to the component that the renderer receives.
    spec fn value(&self) -> Value;

    /// Writes the reference to the component.
    fn to_value(self) -> (r: Value)
        ensures
            r == self.value(),
    ;
}

/// Anything that names a component to display.
pub trait IntoComponentIndex: Sized {
    type Index: ComponentIndex;

    /// The component that this names.
    spec fn index(&self) -> Self::Index;

    /// Turns this into the component it names.
    fn into_index(self) -> (r: Self::Index)
        ensures
            r == self.index(),
    ;
}

impl<I: ComponentIndex> IntoComponentIndex for I {
    type Index = I;

    open spec fn index(&self) -> I {
        *self
    }

    fn into_index(self) -> (r: I) {
        self
    }
}

impl ComponentIndex for Value {
    open spec fn value(&self) -> Value {
        *self
    }

    fn to_value(self) -> (r: Value) {
        self
    }
}

} // verus!
