//! The interface descriptor and the operations dispatched from it.

use vstd::prelude::*;
use crate::config::{opt_view, InterfaceMeta};

verus! {

/// Index of the first `true` in `s` at or after `i`.
pub open spec fn first_true_from(s: Seq<bool>, i: int) -> Option<int>
    decreases s.len() - i,
{
    if i < 0 || i >= s.len() {
        None
    } else if s[i] {
        Some(i)
    } else {
        first_true_from(s, i + 1)
    }
}

/// Index of the first `true` in `s`.
pub open spec fn first_true(s: Seq<bool>) -> Option<int> {
    first_true_from(s, 0)
}

/// `first_true` finds the least index that holds `true`, and nothing when none does.
pub proof fn lemma_first_true_from(s: Seq<bool>, i: int)
    requires
        0 <= i <= s.len(),
    ensures
        match first_true_from(s, i) {
            Some(k) => i <= k < s.len() && s[k] && forall|j: int| i <= j < k ==> !s[j],
            None => forall|j: int| i <= j < s.len() ==> !s[j],
        },
    decreases s.len() - i,
{
    if i < s.len() && !s[i] {
        lemma_first_true_from(s, i + 1);
    }
}

/// A concrete type bound to the interface.
pub struct ImplementerDefinition {
    /// The type as it was written.
    pub ty: String,
    /// The identity of the type at run time; two spellings of one type share it.
    pub runtime_type: u64,
    /// The name that the implementer reports for itself in the schema.
    pub name: String,
    /// Whether a custom downcast expression is bound for this implementer.
    pub has_downcast: bool,
    /// Whether a guard decides when the custom path applies to a value.
    pub has_check: bool,
    /// The context type that the implementer requires for downcasting, if any.
    pub context_ty: Option<String>,
    /// Whether the implementer passes its own check as a valid output type.
    pub is_output_type: bool,
}

/// The canonical description of one interface.
pub struct InterfaceDefinition {
    /// Name of the interface in the schema.
    pub name: String,
    /// The type that represents the interface.
    pub ty: String,
    /// Whether the interface is an open, polymorphic reference rather than a concrete type.
    pub is_trait_object: bool,
    /// Description to put into the schema.
    pub description: Option<String>,
    /// Context type; the unit type when absent.
    pub context: Option<String>,
    /// Value-representation type; generic when absent.
    pub scalar: Option<String>,
    /// Implementers, in declaration order.
    pub implementers: Vec<ImplementerDefinition>,
}

/// Where a request to resolve the value as a given type goes.
#[derive(PartialEq, Eq, Structural, Clone, Copy, Debug)]
pub enum Route {
    /// Evaluate the custom downcast of the implementer at this index.
    Custom(usize),
    /// Leave it to the value's own dynamic resolution.
    Dynamic,
    /// No implementer is reachable: fatal to this interface's resolution.
    Unreachable,
}

/// What follows the evaluation of a custom downcast expression.
#[derive(PartialEq, Eq, Debug)]
pub enum Continuation<C, V, E> {
    /// The evaluation failed: a field error.
    Fail(E),
    /// The value does not have that shape: the field is null.
    Null,
    /// Resolve the selection on the value, with the context replaced for this branch only.
    Resolve(C, V),
}

/// A reason why the schema cannot be built with this interface.
#[derive(PartialEq, Eq, Structural, Clone, Copy, Debug)]
pub enum MarkError {
    /// The implementers at these indices are one type at run time.
    DuplicateImplementer { first: usize, second: usize },
    /// The implementer at this index is not a valid output type.
    NotOutputType { index: usize },
}

impl InterfaceDefinition {
    /// `r` is a name that dispatch may give a value whose guards behave as
    /// `fires` says (`fires(i, b)`: the guard of implementer `i` may evaluate
    /// to `b`): the name of the first implementer whose guard fired, all
    /// earlier guards having not fired; or, for a polymorphic interface where
    /// no guard fired, the value's own dynamic name.
    pub open spec fn named_by(self, fires: spec_fn(int, bool) -> bool, dynamic_name: Seq<char>, r: Seq<char>) -> bool {
        ||| exists|k: int|
            0 <= k < self.implementers@.len() && #[trigger] self.implementers@[k].has_check && fires(k, true)
                && r == self.implementers@[k].name@ && forall|j: int|
                0 <= j < k && #[trigger] self.implementers@[j].has_check ==> fires(j, false)
        ||| self.is_trait_object && r == dynamic_name && forall|j: int|
            0 <= j < self.implementers@.len() && #[trigger] self.implementers@[j].has_check ==> fires(j, false)
    }

    /// Some implementer has a guard that cannot evaluate to `false`.
    pub open spec fn some_guard_sure(self, fires: spec_fn(int, bool) -> bool) -> bool {
        exists|k: int|
            0 <= k < self.implementers@.len() && #[trigger] self.implementers@[k].has_check && !fires(k, false)
    }

    /// The implementers whose custom downcast answers to `requested`.
    pub open spec fn downcasts_named(self, requested: Seq<char>) -> Seq<bool> {
        Seq::new(
            self.implementers@.len(),
            |i: int| self.implementers@[i].has_downcast && self.implementers@[i].name@ == requested,
        )
    }

    /// Where a request to resolve into `requested` goes.
    pub open spec fn route_of(self, requested: Seq<char>) -> Route {
        match first_true(self.downcasts_named(requested)) {
            Some(i) => Route::Custom(i as usize),
            None => if self.is_trait_object {
                Route::Dynamic
            } else {
                Route::Unreachable
            },
        }
    }

    /// Implementers at these indices share one run-time type.
    pub open spec fn same_runtime_type(self, i: int, j: int) -> bool {
        self.implementers@[i].runtime_type == self.implementers@[j].runtime_type
    }

    /// Which implementers before `j` share its run-time type.
    pub open spec fn same_as(self, j: int) -> Seq<bool> {
        Seq::new(j as nat, |i: int| self.same_runtime_type(i, j))
    }

    /// Which implementers share their run-time type with an earlier one.
    pub open spec fn clashes(self) -> Seq<bool> {
        Seq::new(
            self.implementers@.len(),
            |j: int| exists|i: int| 0 <= i < j && #[trigger] self.same_runtime_type(i, j),
        )
    }

    /// Which implementers fail their own output-type check.
    pub open spec fn not_output(self) -> Seq<bool> {
        Seq::new(self.implementers@.len(), |i: int| !self.implementers@[i].is_output_type)
    }

    /// The outcome of the check made once per schema: the first implementer, in declaration order,
    /// that repeats an earlier one's run-time type, with the first such earlier
    /// one; else the first implementer that is no valid output type; else success.
    pub open spec fn mark_of(self) -> Result<(), MarkError> {
        match first_true(self.clashes()) {
            Some(j) => match first_true(self.same_as(j)) {
                Some(i) => Err(MarkError::DuplicateImplementer { first: i as usize, second: j as usize }),
                None => Ok(()),
            },
            None => match first_true(self.not_output()) {
                Some(k) => Err(MarkError::NotOutputType { index: k as usize }),
                None => Ok(()),
            },
        }
    }
}

/// The text of an optional configured value.
pub open spec fn opt_text(o: Option<crate::config::Spanned>) -> Option<Seq<char>> {
    match opt_view(o) {
        Some(v) => Some(v.0),
        None => None,
    }
}

/// The text of an optional string.
pub open spec fn opt_string(o: Option<String>) -> Option<Seq<char>> {
    match o {
        Some(v) => Some(v@),
        None => None,
    }
}

fn take_value(o: Option<crate::config::Spanned>) -> (r: Option<String>)
    ensures
        opt_string(r) == opt_text(o),
{
    match o {
        Some(v) => Some(v.value),
        None => None,
    }
}

impl InterfaceDefinition {
    /// The descriptor of the interface represented by the type `ty`, from its
    /// merged configuration and its implementers in declaration order. Its
    /// name is the configured one, else the type's own.
    pub fn new(meta: InterfaceMeta, ty: String, is_trait_object: bool, implementers: Vec<ImplementerDefinition>) -> (r: Self)
        ensures
            r.name@ == (match opt_text(meta.name) {
                Some(n) => n,
                None => ty@,
            }),
            r.ty == ty,
            r.is_trait_object == is_trait_object,
            opt_string(r.description) == opt_text(meta.description),
            opt_string(r.context) == opt_text(meta.context),
            opt_string(r.scalar) == opt_text(meta.scalar),
            r.implementers == implementers,
    {
        let name = match meta.name {
            Some(n) => n.value,
            None => ty.clone(),
        };
        InterfaceDefinition {
            name,
            ty,
            is_trait_object,
            description: take_value(meta.description),
            context: take_value(meta.context),
            scalar: take_value(meta.scalar),
            implementers,
        }
    }

    /// The name of the interface in the schema.
    pub fn name(&self) -> (r: &str)
        ensures
            r@ == self.name@,
    {
        self.name.as_str()
    }

    /// The description attached to the interface's meta-type, if any.
    pub fn meta_description(&self) -> (r: Option<&str>)
        ensures
            r.is_some() == self.description.is_some(),
            r.is_some() ==> r.unwrap()@ == self.description.unwrap()@,
    {
        match &self.description {
            Some(d) => Some(d.as_str()),
            None => None,
        }
    }

    /// The context type that resolution runs with: the declared one, else the unit type.
    pub fn context_type(&self) -> (r: String)
        ensures
            self.context.is_some() ==> r@ == self.context.unwrap()@,
            self.context.is_none() ==> r@ == "()"@,
    {
        match &self.context {
            Some(c) => c.clone(),
            None => String::from_str("()"),
        }
    }

    /// The concrete type name of a value: the name of the first implementer,
    /// in declaration order, whose guard evaluates to `true`; failing that,
    /// for a polymorphic interface, the value's own dynamic name. `check(i)`
    /// evaluates implementer `i`'s guard on the value, and is called only for
    /// implementers with a guard, in order, up to the first that fires. A
    /// concrete interface whose value no guard places is fatal, and left out.
    pub fn concrete_type_name<G: Fn(usize) -> bool>(&self, check: G, dynamic_name: &str) -> (r: String)
        requires
            forall|i: usize| check.requires((i,)),
            self.is_trait_object || self.some_guard_sure(|i: int, b: bool| check.ensures((i as usize,), b)),
        ensures
            self.named_by(|i: int, b: bool| check.ensures((i as usize,), b), dynamic_name@, r@),
    {
        let ghost fires = |i: int, b: bool| check.ensures((i as usize,), b);
        let n = self.implementers.len();
        let mut i: usize = 0;
        while i < n
            invariant
                n == self.implementers@.len(),
                0 <= i <= n,
                forall|i: usize| check.requires((i,)),
                fires == (|i: int, b: bool| check.ensures((i as usize,), b)),
                forall|j: int| 0 <= j < i && #[trigger] self.implementers@[j].has_check ==> fires(j, false),
            decreases n - i,
        {
            if self.implementers[i].has_check {
                let fired = check(i);
                if fired {
                    assert(fires(i as int, true));
                    return self.implementers[i].name.clone();
                }
                assert(fires(i as int, false));
            }
            i = i + 1;
        }
        if !self.is_trait_object {
            proof {
                let k = choose|k: int|
                    0 <= k < self.implementers@.len() && #[trigger] self.implementers@[k].has_check && !fires(k, false);
                assert(fires(k, false));
            }
        }
        dynamic_name.to_owned()
    }

    /// Where a request to resolve the value as the type named `requested`
    /// goes: the first implementer, in declaration order, with a custom
    /// downcast whose name is `requested`; failing that, the value's own
    /// dynamic resolution for a polymorphic interface; else nowhere.
    pub fn route_into_type(&self, requested: &str) -> (r: Route)
        ensures
            r == self.route_of(requested@),
    {
        let ghost named = self.downcasts_named(requested@);
        let wanted = requested.to_owned();
        let n = self.implementers.len();
        let mut i: usize = 0;
        while i < n
            invariant
                n == self.implementers@.len(),
                wanted@ == requested@,
                named == self.downcasts_named(requested@),
                0 <= i <= n,
                first_true_from(named, 0) == first_true_from(named, i as int),
            decreases n - i,
        {
            if self.implementers[i].has_downcast && self.implementers[i].name == wanted {
                return Route::Custom(i);
            }
            i = i + 1;
        }
        if self.is_trait_object {
            Route::Dynamic
        } else {
            Route::Unreachable
        }
    }

    /// Resolves the value as the type named `requested`, synchronously.
    /// `downcast(i)` evaluates implementer `i`'s custom downcast on the value;
    /// `resolve(i, ctx, v)` is implementer `i`'s own resolution of the
    /// selection on `v` under the context `ctx`, which replaces the caller's
    /// for this branch only; `resolve_dynamic()` is the value's own
    /// resolution. `Ok(None)` is a null field. A request that reaches no
    /// implementer is fatal to the interface, and is left out.
    pub fn resolve_into_type<C, V, E, R, D, F, G>(
        &self,
        requested: &str,
        downcast: D,
        resolve: F,
        resolve_dynamic: G,
    ) -> (r: Result<Option<R>, E>) where
        D: FnOnce(usize) -> Result<Option<(C, V)>, E>,
        F: FnOnce(usize, C, V) -> Result<R, E>,
        G: FnOnce() -> Result<Option<R>, E>,

        requires
            self.route_of(requested@) != Route::Unreachable,
            forall|i: usize| downcast.requires((i,)),
            forall|i: usize, c: C, v: V| resolve.requires((i, c, v)),
            resolve_dynamic.requires(()),
        ensures
            match self.route_of(requested@) {
                Route::Custom(i) => exists|o: Result<Option<(C, V)>, E>|
                    #[trigger] downcast.ensures((i,), o) && custom_result(
                        o,
                        r,
                        |c: C, v: V, x: Result<R, E>| resolve.ensures((i, c, v), x),
                    ),
                Route::Dynamic => resolve_dynamic.ensures((), r),
                Route::Unreachable => false,
            },
    {
        match self.route_into_type(requested) {
            Route::Custom(i) => {
                let o = downcast(i);
                let ghost og = o;
                match after_downcast(o) {
                    Continuation::Fail(e) => Err(e),
                    Continuation::Null => Ok(None),
                    Continuation::Resolve(c, v) => {
                        let x = resolve(i, c, v);
                        let ghost xg = x;
                        let r = match x {
                            Ok(y) => Ok(Some(y)),
                            Err(e) => Err(e),
                        };
                        proof {
                            let resolved = |c: C, v: V, x: Result<R, E>| resolve.ensures((i, c, v), x);
                            assert(resolved(c, v, xg));
                            assert(custom_result(og, r, resolved));
                        }
                        r
                    },
                }
            },
            Route::Dynamic => resolve_dynamic(),
            Route::Unreachable => {
                proof {
                    assert(false);
                }
                vstd::pervasive::unreached()
            },
        }
    }
}

impl InterfaceDefinition {
    /// Finds, in declaration order, an earlier implementer with the run-time type of implementer `j`.
    fn earlier_same_type(&self, j: usize) -> (r: Option<usize>)
        requires
            j < self.implementers@.len(),
        ensures
            match first_true(self.same_as(j as int)) {
                Some(i) => r == Some(i as usize),
                None => r.is_none(),
            },
    {
        let ghost same = self.same_as(j as int);
        let t = self.implementers[j].runtime_type;
        let mut i: usize = 0;
        while i < j
            invariant
                j < self.implementers@.len(),
                t == self.implementers@[j as int].runtime_type,
                same == self.same_as(j as int),
                0 <= i <= j,
                first_true_from(same, 0) == first_true_from(same, i as int),
            decreases j - i,
        {
            if self.implementers[i].runtime_type == t {
                return Some(i);
            }
            i = i + 1;
        }
        None
    }

    /// Verifies, once while the schema is built, that the implementers are
    /// pairwise distinct types at run time (whatever their spellings) and that
    /// each is a valid output type.
    pub fn mark(&self) -> (r: Result<(), MarkError>)
        ensures
            r == self.mark_of(),
    {
        let ghost clash = self.clashes();
        let n = self.implementers.len();
        if n > 1 {
            let mut j: usize = 0;
            while j < n
                invariant
                    n == self.implementers@.len(),
                    clash == self.clashes(),
                    0 <= j <= n,
                    first_true_from(clash, 0) == first_true_from(clash, j as int),
                decreases n - j,
            {
                let found = self.earlier_same_type(j);
                proof {
                    lemma_first_true_from(self.same_as(j as int), 0);
                }
                match found {
                    Some(i) => {
                        assert(self.same_runtime_type(i as int, j as int));
                        assert(clash[j as int]);
                        return Err(MarkError::DuplicateImplementer { first: i, second: j });
                    },
                    None => {
                        assert(!clash[j as int]) by {
                            if clash[j as int] {
                                let i = choose|i: int| 0 <= i < j && #[trigger] self.same_runtime_type(i, j as int);
                                assert(self.same_as(j as int)[i]);
                            }
                        }
                    },
                }
                j = j + 1;
            }
        } else {
            proof {
                lemma_first_true_from(clash, 0);
                if n == 1 {
                    assert(!clash[0]);
                }
            }
        }
        let ghost bad = self.not_output();
        let mut k: usize = 0;
        while k < n
            invariant
                n == self.implementers@.len(),
                bad == self.not_output(),
                first_true(clash).is_none(),
                clash == self.clashes(),
                0 <= k <= n,
                first_true_from(bad, 0) == first_true_from(bad, k as int),
            decreases n - k,
        {
            if !self.implementers[k].is_output_type {
                return Err(MarkError::NotOutputType { index: k });
            }
            k = k + 1;
        }
        Ok(())
    }
}

/// What the synchronous resolution returns once the route is `Custom(i)`
/// and the downcast gave `outcome`: `resolved` is what implementer `i`'s own
/// resolution may return on a present pair.
pub open spec fn custom_result<C, V, E, R>(
    outcome: Result<Option<(C, V)>, E>,
    r: Result<Option<R>, E>,
    resolved: spec_fn(C, V, Result<R, E>) -> bool,
) -> bool {
    match continuation_of(outcome) {
        Continuation::Fail(e) => r == Err::<Option<R>, E>(e),
        Continuation::Null => r == Ok::<Option<R>, E>(None),
        Continuation::Resolve(c, v) => exists|x: Result<R, E>|
            #[trigger] resolved(c, v, x) && r == match x {
                Ok(y) => Ok::<Option<R>, E>(Some(y)),
                Err(e) => Err::<Option<R>, E>(e),
            },
    }
}

/// What follows the evaluation of a custom downcast, as a value.
pub open spec fn continuation_of<C, V, E>(outcome: Result<Option<(C, V)>, E>) -> Continuation<C, V, E> {
    match outcome {
        Err(e) => Continuation::Fail(e),
        Ok(None) => Continuation::Null,
        Ok(Some((c, v))) => Continuation::Resolve(c, v),
    }
}

/// What follows the evaluation of a custom downcast: an error is a field
/// error, no value is a null field, and a context with a value is resolved
/// by the implementer under that context, for this branch only.
pub fn after_downcast<C, V, E>(outcome: Result<Option<(C, V)>, E>) -> (r: Continuation<C, V, E>)
    ensures
        r == continuation_of(outcome),
{
    match outcome {
        Err(e) => Continuation::Fail(e),
        Ok(None) => Continuation::Null,
        Ok(Some((c, v))) => Continuation::Resolve(c, v),
    }
}

} // verus!
