//! Global hotkey planning.
//!
//! Registering a hotkey takes two steps around the OS shortcut facility:
//! [`resolve_hotkey`] decides which key combination, if any, is to be
//! registered, and [`complete_registration`] takes the facility's answer and
//! updates the store. The binding is persisted only once the facility has
//! accepted it, so that the stored and the live binding never diverge.

use vstd::prelude::*;
use crate::config::{get, ConfigStore, ConfigValue};
use crate::service::text_of;
use crate::text::same_text;

verus! {

/// The application actions that can be bound to a global hotkey.
#[derive(Clone, Copy, Debug, PartialEq, Eq, Structural)]
pub enum Action {
    SelectionTranslate,
    InputTranslate,
}

/// The store key that holds an action's key combination.
pub open spec fn hotkey_key(a: Action) -> Seq<char> {
    match a {
        Action::SelectionTranslate => "hotkey_selection_translate"@,
        Action::InputTranslate => "hotkey_input_translate"@,
    }
}

/// The action whose store key is `s`, if any.
pub open spec fn action_named(s: Seq<char>) -> Option<Action> {
    if s == hotkey_key(Action::SelectionTranslate) {
        Some(Action::SelectionTranslate)
    } else if s == hotkey_key(Action::InputTranslate) {
        Some(Action::InputTranslate)
    } else {
        None
    }
}

/// The actions that a shortcut request names: one action by its store key,
/// or every action for `all`.
pub open spec fn shortcut_actions(s: Seq<char>) -> Seq<Action> {
    if s == "all"@ {
        seq![Action::SelectionTranslate, Action::InputTranslate]
    } else {
        match action_named(s) {
            Some(a) => seq![a],
            None => Seq::empty(),
        }
    }
}

/// The key combination stored for a key: a non-empty text value.
pub open spec fn stored_hotkey(m: Map<Seq<char>, ConfigValue>, key: Seq<char>) -> Option<Seq<char>> {
    if m.contains_key(key) && m[key] is Text && text_of(m[key]).len() > 0 {
        Some(text_of(m[key]))
    } else {
        None
    }
}

impl Action {
    /// The store key that holds this action's key combination.
    pub fn store_key(&self) -> (r: &'static str)
        ensures
            r@ == hotkey_key(*self),
    {
        match self {
            Action::SelectionTranslate => "hotkey_selection_translate",
            Action::InputTranslate => "hotkey_input_translate",
        }
    }

    /// The action stored under the key `name`, if any.
    pub fn from_name(name: &str) -> (r: Option<Action>)
        ensures
            r == action_named(name@),
    {
        if same_text(name, "hotkey_selection_translate") {
            Some(Action::SelectionTranslate)
        } else if same_text(name, "hotkey_input_translate") {
            Some(Action::InputTranslate)
        } else {
            None
        }
    }
}

/// The OS facility refused a key combination; the message says why.
#[derive(Debug)]
pub struct RegistrationError {
    pub message: String,
}

/// A key combination to hand to the OS shortcut facility for an action.
#[derive(Debug)]
pub struct Registration {
    pub action: Action,
    pub hotkey: String,
    /// Whether the combination was given by the caller and is to be
    /// stored once the facility accepts it.
    pub persist: bool,
}

/// Decides what to register for `action`. A non-empty `explicit` key is
/// used as given. Otherwise the stored combination is used; a missing entry
/// is created empty, and an empty or missing combination means that
/// nothing is registered (`None`).
pub fn resolve_hotkey(store: &mut ConfigStore, action: Action, explicit: &str) -> (r: Option<
    Registration,
>)
    requires
        old(store).wf(),
    ensures
        final(store).wf(),
        explicit@.len() > 0 ==> final(store)@ == old(store)@ && r is Some && r->0.action == action
            && r->0.hotkey@ == explicit@ && r->0.persist,
        explicit@.len() == 0 && old(store)@.contains_key(hotkey_key(action)) ==> final(store)@
            == old(store)@ && match stored_hotkey(old(store)@, hotkey_key(action)) {
            Some(h) => r is Some && r->0.action == action && r->0.hotkey@ == h && !r->0.persist,
            None => r is None,
        },
        explicit@.len() == 0 && !old(store)@.contains_key(hotkey_key(action)) ==> r is None
            && final(store)@ == old(store)@.insert(
            hotkey_key(action),
            final(store)@[hotkey_key(action)],
        ) && final(store)@[hotkey_key(action)] is Text && text_of(
            final(store)@[hotkey_key(action)],
        ).len() == 0,
{
    let key = action.store_key();
    if explicit.unicode_len() > 0 {
        return Some(Registration { action, hotkey: explicit.to_owned(), persist: true });
    }
    let stored = match get(store, key) {
        Some(ConfigValue::Text(t)) => Some(t.clone()),
        Some(_) => None,
        None => {
            crate::config::set(store, key, ConfigValue::Text(String::new()));
            return None;
        },
    };
    match stored {
        Some(h) => {
            if h.as_str().unicode_len() > 0 {
                Some(Registration { action, hotkey: h, persist: false })
            } else {
                None
            }
        },
        None => None,
    }
}

/// Takes the OS facility's answer to `reg`. On success a combination given
/// by the caller is stored under the action's key; on failure the store is
/// left as it was and the facility's message is returned.
pub fn complete_registration(
    store: &mut ConfigStore,
    reg: Registration,
    outcome: Result<(), String>,
) -> (r: Result<(), RegistrationError>)
    requires
        old(store).wf(),
    ensures
        final(store).wf(),
        outcome is Ok <==> r is Ok,
        outcome is Err ==> final(store)@ == old(store)@ && r->Err_0.message@ == outcome->Err_0@,
        outcome is Ok && !reg.persist ==> final(store)@ == old(store)@,
        outcome is Ok && reg.persist ==> final(store)@ == old(store)@.insert(
            hotkey_key(reg.action),
            final(store)@[hotkey_key(reg.action)],
        ) && final(store)@[hotkey_key(reg.action)] is Text && text_of(
            final(store)@[hotkey_key(reg.action)],
        ) == reg.hotkey@,
{
    match outcome {
        Ok(()) => {
            if reg.persist {
                let key = reg.action.store_key();
                crate::config::set(store, key, ConfigValue::Text(reg.hotkey));
            }
            Ok(())
        },
        Err(message) => Err(RegistrationError { message }),
    }
}

/// Clears the binding of `action`: the empty combination is stored, and
/// the combination that was bound, if any, is returned so that the caller
/// can release it at the OS facility.
pub fn clear_hotkey(store: &mut ConfigStore, action: Action) -> (r: Option<String>)
    requires
        old(store).wf(),
    ensures
        final(store).wf(),
        final(store)@ == old(store)@.insert(hotkey_key(action), final(store)@[hotkey_key(action)]),
        final(store)@[hotkey_key(action)] is Text,
        text_of(final(store)@[hotkey_key(action)]).len() == 0,
        r is Some <==> stored_hotkey(old(store)@, hotkey_key(action)) is Some,
        r is Some ==> r->0@ == stored_hotkey(old(store)@, hotkey_key(action))->0,
{
    let key = action.store_key();
    let previous = match get(store, key) {
        Some(ConfigValue::Text(t)) => {
            if t.as_str().unicode_len() > 0 {
                Some(t.clone())
            } else {
                None
            }
        },
        _ => None,
    };
    crate::config::set(store, key, ConfigValue::Text(String::new()));
    previous
}

/// The actions that a shortcut request names: `hotkey_selection_translate`,
/// `hotkey_input_translate`, or `all` for every action; none otherwise.
pub fn register_shortcut(shortcut: &str) -> (r: Vec<Action>)
    ensures
        r@ == shortcut_actions(shortcut@),
{
    if same_text(shortcut, "all") {
        let r = vec![Action::SelectionTranslate, Action::InputTranslate];
        assert(r@ =~= shortcut_actions(shortcut@));
        r
    } else {
        match Action::from_name(shortcut) {
            Some(a) => {
                let r = vec![a];
                assert(r@ =~= shortcut_actions(shortcut@));
                r
            },
            None => {
                let r: Vec<Action> = Vec::new();
                assert(r@ =~= shortcut_actions(shortcut@));
                r
            },
        }
    }
}

/// Resolves a binding chosen in the front end: `name` is an action's store
/// key and `shortcut` the new combination (empty: use the stored one).
/// `None` when `name` names no action or nothing is to be registered.
pub fn register_shortcut_by_frontend(store: &mut ConfigStore, name: &str, shortcut: &str) -> (r:
    Option<Registration>)
    requires
        old(store).wf(),
    ensures
        final(store).wf(),
        action_named(name@) is None ==> r is None && final(store)@ == old(store)@,
        action_named(name@) is Some && shortcut@.len() > 0 ==> final(store)@ == old(store)@
            && r is Some && r->0.action == action_named(name@)->0 && r->0.hotkey@ == shortcut@
            && r->0.persist,
        action_named(name@) is Some && shortcut@.len() == 0 && old(store)@.contains_key(name@)
            ==> final(store)@ == old(store)@ && match stored_hotkey(old(store)@, name@) {
            Some(h) => r is Some && r->0.action == action_named(name@)->0 && r->0.hotkey@ == h
                && !r->0.persist,
            None => r is None,
        },
        action_named(name@) is Some && shortcut@.len() == 0 && !old(store)@.contains_key(name@)
            ==> r is None && final(store)@ == old(store)@.insert(name@, final(store)@[name@])
            && final(store)@[name@] is Text && text_of(final(store)@[name@]).len() == 0,
{
    match Action::from_name(name) {
        Some(action) => resolve_hotkey(store, action, shortcut),
        None => None,
    }
}

/// What an outcome of the OS facility says: success, or the message of
/// the refusal.
pub open spec fn outcome_view(o: Result<(), RegistrationError>) -> Result<(), Seq<char>> {
    match o {
        Ok(()) => Ok(()),
        Err(e) => Err(e.message@),
    }
}

/// The failures among the first `outcomes.len()` attempts, each with its
/// action, in the order of the attempts.
pub open spec fn failures_of(actions: Seq<Action>, outcomes: Seq<Result<(), Seq<char>>>) -> Seq<
    (Action, Seq<char>),
>
    decreases outcomes.len(),
{
    if outcomes.len() == 0 {
        Seq::empty()
    } else {
        let rest = failures_of(actions, outcomes.drop_last());
        match outcomes.last() {
            Ok(()) => rest,
            Err(e) => rest.push((actions[outcomes.len() - 1], e)),
        }
    }
}

/// How many outcomes are failures.
pub open spec fn error_count(outcomes: Seq<Result<(), Seq<char>>>) -> nat
    decreases outcomes.len(),
{
    if outcomes.len() == 0 {
        0
    } else {
        error_count(outcomes.drop_last()) + if outcomes.last() is Err {
            1nat
        } else {
            0nat
        }
    }
}

/// The failure entries of a list of refused actions.
pub open spec fn failure_entries(v: Seq<(Action, RegistrationError)>) -> Seq<(Action, Seq<char>)> {
    v.map_values(|f: (Action, RegistrationError)| (f.0, f.1.message@))
}

/// Registration of several actions, each attempted on its own: a refused
/// action is recorded and the next one is attempted all the same.
pub struct BulkRegistration {
    actions: Vec<Action>,
    done: usize,
    outcomes: Ghost<Seq<Result<(), Seq<char>>>>,
    failures: Vec<(Action, RegistrationError)>,
}

impl BulkRegistration {
    /// The actions to attempt, in order.
    pub closed spec fn actions(&self) -> Seq<Action> {
        self.actions@
    }

    /// The outcomes recorded so far, one per attempted action.
    pub closed spec fn outcomes(&self) -> Seq<Result<(), Seq<char>>> {
        self.outcomes@
    }

    /// One outcome per attempted action, and the refusals among them kept
    /// in order.
    pub closed spec fn wf(&self) -> bool {
        &&& self.outcomes@.len() == self.done
        &&& self.done <= self.actions@.len()
        &&& failure_entries(self.failures@) == failures_of(self.actions@, self.outcomes@)
    }

    /// Starts the registration of `actions`, none attempted yet.
    pub fn new(actions: Vec<Action>) -> (r: Self)
        ensures
            r.wf(),
            r.actions() == actions@,
            r.outcomes() == Seq::<Result<(), Seq<char>>>::empty(),
    {
        let r = BulkRegistration { actions, done: 0, outcomes: Ghost(Seq::empty()), failures: Vec::new() };
        assert(failure_entries(r.failures@) =~= Seq::<(Action, Seq<char>)>::empty());
        r
    }

    /// The next action to attempt, or `None` once every action has an
    /// outcome.
    pub fn next_action(&self) -> (r: Option<Action>)
        requires
            self.wf(),
        ensures
            self.outcomes().len() < self.actions().len() ==> r == Some(
                self.actions()[self.outcomes().len() as int],
            ),
            self.outcomes().len() == self.actions().len() ==> r is None,
    {
        if self.done < self.actions.len() {
            Some(self.actions[self.done])
        } else {
            None
        }
    }

    /// Records the outcome of the attempt at the next action.
    pub fn record(&mut self, outcome: Result<(), RegistrationError>)
        requires
            old(self).wf(),
            old(self).outcomes().len() < old(self).actions().len(),
        ensures
            final(self).wf(),
            final(self).actions() == old(self).actions(),
            final(self).outcomes() == old(self).outcomes().push(outcome_view(outcome)),
    {
        let ghost before = self.outcomes@;
        let n = self.done;
        let total = self.actions.len();
        assert(n < total);
        let action = self.actions[n];
        match outcome {
            Ok(()) => {},
            Err(e) => {
                self.failures.push((action, e));
            },
        }
        self.outcomes = Ghost(before.push(outcome_view(outcome)));
        self.done = n + 1;
        proof {
            assert(self.outcomes@.drop_last() =~= before);
            assert(failure_entries(self.failures@) =~= failures_of(self.actions@, self.outcomes@));
        }
    }

    /// Ends the registration: `Ok` when no action was refused, else every
    /// refusal with its action, in the order of the attempts.
    pub fn finish(self) -> (r: Result<(), Vec<(Action, RegistrationError)>>)
        requires
            self.wf(),
        ensures
            r is Ok <==> failures_of(self.actions(), self.outcomes()).len() == 0,
            r is Err ==> failure_entries(r->Err_0@) == failures_of(
                self.actions(),
                self.outcomes(),
            ),
    {
        if self.failures.len() == 0 {
            Ok(())
        } else {
            Err(self.failures)
        }
    }
}

/// A bulk registration reports one failure per refused attempt, no more
/// and no less, and every refused attempt among them with its action.
pub proof fn lemma_failures_exact(actions: Seq<Action>, outcomes: Seq<Result<(), Seq<char>>>)
    requires
        outcomes.len() <= actions.len(),
    ensures
        failures_of(actions, outcomes).len() == error_count(outcomes),
        forall|j: int|
            0 <= j < outcomes.len() && (#[trigger] outcomes[j]) is Err ==> failures_of(
                actions,
                outcomes,
            ).contains((actions[j], outcomes[j]->Err_0)),
    decreases outcomes.len(),
{
    if outcomes.len() > 0 {
        let init = outcomes.drop_last();
        lemma_failures_exact(actions, init);
        let rest = failures_of(actions, init);
        let f = failures_of(actions, outcomes);
        assert forall|j: int|
            0 <= j < outcomes.len() && (#[trigger] outcomes[j]) is Err implies f.contains(
            (actions[j], outcomes[j]->Err_0),
        ) by {
            if j < outcomes.len() - 1 {
                assert(init[j] == outcomes[j]);
                let i = choose|i: int|
                    0 <= i < rest.len() && rest[i] == (actions[j], init[j]->Err_0);
                assert(f[i] == rest[i]);
            } else {
                assert(f[rest.len() as int] == (actions[j], outcomes[j]->Err_0));
            }
        }
    }
}

} // verus!
