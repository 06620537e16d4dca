use crate::errors::{EnvironmentErrorType, LoxResult, LoxResultView};
use crate::object::{Object, ObjectView};
use crate::table::Table;
use crate::text::push_text;
use crate::token::{location_text, Token, TokenView};
use vstd::prelude::*;

verus! {

/// A scope: the values of its names, and the place of the scope that
/// encloses it among the interpreter's environments.
#[derive(Debug)]
pub struct Environment {
    pub enclosing: Option<usize>,
    pub values: Table<Object>,
}

/// The mathematical model of an [`Environment`].
pub struct EnvironmentView {
    pub enclosing: Option<int>,
    pub values: Map<Seq<char>, ObjectView>,
}

impl View for Environment {
    type V = EnvironmentView;

    open spec fn view(&self) -> EnvironmentView {
        EnvironmentView {
            enclosing: match self.enclosing {
                Some(parent) => Some(parent as int),
                None => None,
            },
            values: self.values@,
        }
    }
}

/// The models of a sequence of environments.
pub open spec fn environments_view(envs: Seq<Environment>) -> Seq<EnvironmentView> {
    Seq::new(envs.len(), |i: int| envs[i]@)
}

/// Every environment keeps each of its names once.
pub open spec fn environments_wf(envs: Seq<Environment>) -> bool {
    forall|i: int| 0 <= i < envs.len() ==> (#[trigger] envs[i]).values.wf()
}

/// The environment that is `distance` scopes out from the one at `at`, if the
/// chain is that long.
pub open spec fn ancestor(envs: Seq<EnvironmentView>, at: int, distance: nat) -> Option<int>
    decreases distance,
{
    if !(0 <= at < envs.len()) {
        None
    } else if distance == 0 {
        Some(at)
    } else {
        match envs[at].enclosing {
            Some(parent) => ancestor(envs, parent, (distance - 1) as nat),
            None => None,
        }
    }
}

/// The nearest environment that holds the name, from the one at `at`
/// outwards. An enclosing environment is one that was made before.
pub open spec fn holder(envs: Seq<EnvironmentView>, at: int, name: Seq<char>) -> Option<int>
    decreases at,
{
    if !(0 <= at < envs.len()) {
        None
    } else if envs[at].values.contains_key(name) {
        Some(at)
    } else {
        match envs[at].enclosing {
            Some(parent) => if 0 <= parent < at {
                holder(envs, parent, name)
            } else {
                None
            },
            None => None,
        }
    }
}

/// The environments after the name was given the value in the one at `at`.
pub open spec fn defined(envs: Seq<EnvironmentView>, at: int, name: Seq<char>, value: ObjectView)
    -> Seq<EnvironmentView>
    recommends
        0 <= at < envs.len(),
{
    envs.update(
        at,
        EnvironmentView {
            enclosing: envs[at].enclosing,
            values: envs[at].values.insert(name, value),
        },
    )
}

/// The error for a variable that is read and that no environment holds.
pub open spec fn no_such_variable(token: TokenView) -> LoxResultView {
    LoxResultView::Environment {
        error_type: EnvironmentErrorType::UnknownVariable,
        msg: location_text(token) + " -> No such variable '"@ + token.lexeme + "'."@,
    }
}

/// The error for a variable that is assigned to and that no environment
/// holds.
pub open spec fn no_assignable_variable(token: TokenView) -> LoxResultView {
    LoxResultView::Environment {
        error_type: EnvironmentErrorType::UnknownVariable,
        msg: "Cannot assign value to unknown variable '"@ + token.lexeme + "'."@,
    }
}

/// The error for a variable that is not found where the resolver
/// recorded it to live.
pub open spec fn unresolved_variable(token: TokenView) -> LoxResultView {
    LoxResultView::Environment {
        error_type: EnvironmentErrorType::UnknownVariable,
        msg: "No variable '"@ + token.lexeme + "' at the recorded distance, "@ + location_text(
            token,
        ) + "."@,
    }
}

/// The value of the variable that `token` names, as seen from the
/// environment at `at`.
pub open spec fn get(envs: Seq<EnvironmentView>, at: int, token: TokenView) -> Result<
    ObjectView,
    LoxResultView,
> {
    match holder(envs, at, token.lexeme) {
        Some(h) => Ok(envs[h].values[token.lexeme]),
        None => Err(no_such_variable(token)),
    }
}

/// The value of the variable that `token` names in the environment that is
/// `distance` scopes out from the one at `at`; an error where that
/// environment does not hold the name.
pub open spec fn get_at(envs: Seq<EnvironmentView>, at: int, distance: nat, token: TokenView)
    -> Result<ObjectView, LoxResultView> {
    match ancestor(envs, at, distance) {
        Some(a) => if envs[a].values.contains_key(token.lexeme) {
            Ok(envs[a].values[token.lexeme])
        } else {
            Err(unresolved_variable(token))
        },
        None => Err(unresolved_variable(token)),
    }
}

/// The environments after the variable that `token` names, as seen from the
/// environment at `at`, was given the value.
pub open spec fn assign(envs: Seq<EnvironmentView>, at: int, token: TokenView, value: ObjectView)
    -> Result<Seq<EnvironmentView>, LoxResultView> {
    match holder(envs, at, token.lexeme) {
        Some(h) => Ok(defined(envs, h, token.lexeme, value)),
        None => Err(no_assignable_variable(token)),
    }
}

/// The environments after the variable that `token` names in the
/// environment that is `distance` scopes out from the one at `at` was given
/// the value, whether or not that environment held the name; an error
/// where the chain of environments is shorter than the distance.
pub open spec fn assign_at(
    envs: Seq<EnvironmentView>,
    at: int,
    distance: nat,
    token: TokenView,
    value: ObjectView,
) -> Result<Seq<EnvironmentView>, LoxResultView> {
    match ancestor(envs, at, distance) {
        Some(a) => Ok(defined(envs, a, token.lexeme, value)),
        None => Err(unresolved_variable(token)),
    }
}

fn unknown_to_read(token: &Token) -> (r: LoxResult)
    ensures
        r@ == no_such_variable(token@),
{
    let mut msg = token.location();
    push_text(&mut msg, " -> No such variable '");
    push_text(&mut msg, token.lexeme.as_str());
    push_text(&mut msg, "'.");
    LoxResult::Environment { error_type: EnvironmentErrorType::UnknownVariable, msg }
}

fn unresolved(token: &Token) -> (r: LoxResult)
    ensures
        r@ == unresolved_variable(token@),
{
    let mut msg = String::new();
    push_text(&mut msg, "No variable '");
    push_text(&mut msg, token.lexeme.as_str());
    push_text(&mut msg, "' at the recorded distance, ");
    let place = token.location();
    push_text(&mut msg, place.as_str());
    push_text(&mut msg, ".");
    assert(msg@ =~= "No variable '"@ + token.lexeme@ + "' at the recorded distance, "@
        + location_text(token@) + "."@);
    LoxResult::Environment { error_type: EnvironmentErrorType::UnknownVariable, msg }
}

fn unknown_to_assign(token: &Token) -> (r: LoxResult)
    ensures
        r@ == no_assignable_variable(token@),
{
    let mut msg = String::new();
    push_text(&mut msg, "Cannot assign value to unknown variable '");
    push_text(&mut msg, token.lexeme.as_str());
    push_text(&mut msg, "'.");
    assert(msg@ =~= "Cannot assign value to unknown variable '"@ + token.lexeme@ + "'."@);
    LoxResult::Environment { error_type: EnvironmentErrorType::UnknownVariable, msg }
}

impl Environment {
    /// An empty environment that nothing encloses.
    pub fn new() -> (r: Environment)
        ensures
            r.values.wf(),
            r@ == (EnvironmentView { enclosing: None, values: Map::empty() }),
    {
        Environment { enclosing: None, values: Table::new() }
    }

    /// An empty environment within the one at `env`.
    pub fn from_enclosing(env: usize) -> (r: Environment)
        ensures
            r.values.wf(),
            r@ == (EnvironmentView { enclosing: Some(env as int), values: Map::empty() }),
    {
        Environment { enclosing: Some(env), values: Table::new() }
    }

    /// Gives the name the value in this environment, whether or not it had
    /// one.
    pub fn define(&mut self, name: String, obj: Object)
        requires
            old(self).values.wf(),
        ensures
            final(self).values.wf(),
            final(self)@ == (EnvironmentView {
                enclosing: old(self)@.enclosing,
                values: old(self)@.values.insert(name@, obj@),
            }),
    {
        self.values.insert(name, obj);
    }

    /// The place of the environment that is `distance` scopes out from the
    /// one at `at`.
    pub fn ancestor(envs: &Vec<Environment>, at: usize, distance: usize) -> (r: Option<usize>)
        ensures
            match r {
                Some(a) => ancestor(environments_view(envs@), at as int, distance as nat) == Some(
                    a as int,
                ) && a < envs.len(),
                None => ancestor(environments_view(envs@), at as int, distance as nat) is None,
            },
    {
        let mut place = at;
        let mut left = distance;
        loop
            invariant
                ancestor(environments_view(envs@), place as int, left as nat) == ancestor(
                    environments_view(envs@),
                    at as int,
                    distance as nat,
                ),
            decreases left,
        {
            if place >= envs.len() {
                return None;
            }
            if left == 0 {
                return Some(place);
            }
            match envs[place].enclosing {
                Some(parent) => {
                    place = parent;
                    left = left - 1;
                },
                None => {
                    return None;
                },
            }
        }
    }

    /// The place of the nearest environment that holds the name, from the
    /// one at `at` outwards.
    pub fn holder(envs: &Vec<Environment>, at: usize, name: &str) -> (r: Option<usize>)
        requires
            environments_wf(envs@),
        ensures
            match r {
                Some(h) => holder(environments_view(envs@), at as int, name@) == Some(h as int)
                    && h < envs.len() && envs[h as int]@.values.contains_key(name@),
                None => holder(environments_view(envs@), at as int, name@) is None,
            },
    {
        let mut place = at;
        loop
            invariant
                environments_wf(envs@),
                holder(environments_view(envs@), place as int, name@) == holder(
                    environments_view(envs@),
                    at as int,
                    name@,
                ),
            decreases place,
        {
            if place >= envs.len() {
                return None;
            }
            if envs[place].values.contains_key(name) {
                return Some(place);
            }
            match envs[place].enclosing {
                Some(parent) => {
                    if parent < place {
                        place = parent;
                    } else {
                        return None;
                    }
                },
                None => {
                    return None;
                },
            }
        }
    }

    /// The value of the variable that `token` names, as seen from the
    /// environment at `at`.
    pub fn get(envs: &Vec<Environment>, at: usize, token: &Token) -> (r: Result<Object, LoxResult>)
        requires
            environments_wf(envs@),
        ensures
            crate::interpreter::value_result_view(r) == get(
                environments_view(envs@),
                at as int,
                token@,
            ),
    {
        match Environment::holder(envs, at, token.lexeme.as_str()) {
            Some(h) => match envs[h].values.get(token.lexeme.as_str()) {
                Some(v) => Ok(v.clone()),
                None => Err(unknown_to_read(token)),
            },
            None => Err(unknown_to_read(token)),
        }
    }

    /// The value of the variable that `token` names in the environment that
    /// is `distance` scopes out from the one at `at`.
    pub fn get_at(envs: &Vec<Environment>, at: usize, distance: usize, name: &Token) -> (r: Result<
        Object,
        LoxResult,
    >)
        requires
            environments_wf(envs@),
        ensures
            crate::interpreter::value_result_view(r) == get_at(
                environments_view(envs@),
                at as int,
                distance as nat,
                name@,
            ),
    {
        match Environment::ancestor(envs, at, distance) {
            Some(a) => match envs[a].values.get(name.lexeme.as_str()) {
                Some(v) => Ok(v.clone()),
                None => Err(unresolved(name)),
            },
            None => Err(unresolved(name)),
        }
    }

    /// Gives the variable that `token` names, as seen from the environment
    /// at `at`, the value.
    pub fn assign(envs: &mut Vec<Environment>, at: usize, token: &Token, value: Object) -> (r:
        Result<(), LoxResult>)
        requires
            environments_wf(old(envs)@),
        ensures
            environments_wf(final(envs)@),
            final(envs).len() == old(envs).len(),
            match assign(environments_view(old(envs)@), at as int, token@, value@) {
                Ok(after) => r is Ok && environments_view(final(envs)@) == after,
                Err(e) => r is Err && r->Err_0@ == e && environments_view(final(envs)@)
                    == environments_view(old(envs)@),
            },
    {
        match Environment::holder(envs, at, token.lexeme.as_str()) {
            Some(h) => {
                envs[h].define(token.lexeme.clone(), value);
                assert(environments_view(envs@) =~= defined(
                    environments_view(old(envs)@),
                    h as int,
                    token@.lexeme,
                    value@,
                ));
                Ok(())
            },
            None => Err(unknown_to_assign(token)),
        }
    }

    /// Gives the variable that `token` names in the environment that is
    /// `distance` scopes out from the one at `at` the value, whether or not
    /// that environment held the name.
    pub fn assign_at(
        envs: &mut Vec<Environment>,
        at: usize,
        distance: usize,
        name: &Token,
        value: Object,
    ) -> (r: Result<(), LoxResult>)
        requires
            environments_wf(old(envs)@),
        ensures
            environments_wf(final(envs)@),
            final(envs).len() == old(envs).len(),
            match assign_at(
                environments_view(old(envs)@),
                at as int,
                distance as nat,
                name@,
                value@,
            ) {
                Ok(after) => r is Ok && environments_view(final(envs)@) == after,
                Err(e) => r is Err && r->Err_0@ == e && environments_view(final(envs)@)
                    == environments_view(old(envs)@),
            },
    {
        match Environment::ancestor(envs, at, distance) {
            Some(a) => {
                envs[a].define(name.lexeme.clone(), value);
                assert(environments_view(envs@) =~= defined(
                    environments_view(old(envs)@),
                    a as int,
                    name@.lexeme,
                    value@,
                ));
                Ok(())
            },
            None => Err(unresolved(name)),
        }
    }
}

} // verus!
