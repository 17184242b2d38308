//! Laws that tie the operations together.

use vstd::prelude::*;
use crate::config::{keep_once, lemma_gather_keeps_prefix, merge, merge_all, Diagnostic, Key, MetaView};
use crate::dispatch::{
    continuation_of, first_true, lemma_first_true_from, Continuation,
    InterfaceDefinition, MarkError, Route,
};
use crate::parse::{ident_end, is_ident_start, key_of, loc_at, parse_items, skip_space, KeyWord};

verus! {

/// A value whose guard fires for implementer `a` alone, and whose other
/// guards do not fire, is named after `a`, and so never after an implementer
/// with another name.
pub proof fn law_guard_names_its_implementer(
    d: InterfaceDefinition,
    fires: spec_fn(int, bool) -> bool,
    dynamic_name: Seq<char>,
    r: Seq<char>,
    a: int,
    b: int,
)
    requires
        0 <= a < d.implementers@.len(),
        0 <= b < d.implementers@.len(),
        d.implementers@[a].has_check,
        !fires(a, false),
        forall|i: int| 0 <= i < d.implementers@.len() && i != a ==> !#[trigger] fires(i, true),
        d.implementers@[a].name@ != d.implementers@[b].name@,
        d.named_by(fires, dynamic_name, r),
    ensures
        r == d.implementers@[a].name@,
        r != d.implementers@[b].name@,
{
    if exists|k: int|
        0 <= k < d.implementers@.len() && #[trigger] d.implementers@[k].has_check && fires(k, true) && r
            == d.implementers@[k].name@ && forall|j: int|
            0 <= j < k && #[trigger] d.implementers@[j].has_check ==> fires(j, false) {
        let k = choose|k: int|
            0 <= k < d.implementers@.len() && #[trigger] d.implementers@[k].has_check && fires(k, true) && r
                == d.implementers@[k].name@ && forall|j: int|
                0 <= j < k && #[trigger] d.implementers@[j].has_check ==> fires(j, false);
        if k != a {
            assert(!true);
        }
    } else {
        assert(fires(a, false));
    }
}

/// A polymorphic value that no guard claims is named by its own dynamic name.
pub proof fn law_open_dispatch_names_dynamically(
    d: InterfaceDefinition,
    fires: spec_fn(int, bool) -> bool,
    dynamic_name: Seq<char>,
    r: Seq<char>,
)
    requires
        d.is_trait_object,
        forall|i: int| 0 <= i < d.implementers@.len() ==> !#[trigger] fires(i, true),
        d.named_by(fires, dynamic_name, r),
    ensures
        r == dynamic_name,
{
    if exists|k: int|
        0 <= k < d.implementers@.len() && #[trigger] d.implementers@[k].has_check && fires(k, true) && r
            == d.implementers@[k].name@ && forall|j: int|
            0 <= j < k && #[trigger] d.implementers@[j].has_check ==> fires(j, false) {
        let k = choose|k: int|
            0 <= k < d.implementers@.len() && #[trigger] d.implementers@[k].has_check && fires(k, true) && r
                == d.implementers@[k].name@ && forall|j: int|
                0 <= j < k && #[trigger] d.implementers@[j].has_check ==> fires(j, false);
        assert(fires(k, true));
    }
}

/// Resolving into the name of implementer `a`, the first with a custom
/// downcast of that name, goes to `a`; a present downcast result is then
/// resolved by the implementer itself, under the context it came with.
pub proof fn law_resolve_goes_to_named_implementer<C, V, E>(d: InterfaceDefinition, a: int, ctx: C, value: V)
    requires
        0 <= a < d.implementers@.len(),
        d.implementers@[a].has_downcast,
        forall|i: int|
            0 <= i < a ==> !(d.implementers@[i].has_downcast && d.implementers@[i].name@ == d.implementers@[a].name@),
    ensures
        d.route_of(d.implementers@[a].name@) == Route::Custom(a as usize),
        continuation_of(Ok::<Option<(C, V)>, E>(Some((ctx, value)))) == Continuation::<C, V, E>::Resolve(ctx, value),
{
    let named = d.downcasts_named(d.implementers@[a].name@);
    lemma_first_true_from(named, 0);
    match first_true(named) {
        Some(k) => {
            assert(named[k]);
            if k > a {
                assert(named[a]);
            }
        },
        None => {
            assert(named[a]);
        },
    }
}

/// Resolving into a name that no custom downcast answers to is left to the
/// value's own resolution on a polymorphic interface, and is unreachable on
/// a concrete one.
pub proof fn law_unmatched_request(d: InterfaceDefinition, requested: Seq<char>)
    requires
        forall|i: int|
            0 <= i < d.implementers@.len() ==> !(d.implementers@[i].has_downcast && d.implementers@[i].name@ == requested),
    ensures
        d.is_trait_object ==> d.route_of(requested) == Route::Dynamic,
        !d.is_trait_object ==> d.route_of(requested) == Route::Unreachable,
{
    let named = d.downcasts_named(requested);
    lemma_first_true_from(named, 0);
    if let Some(k) = first_true(named) {
        assert(named[k]);
    }
}

/// Two implementers of one run-time type are refused while the schema is
/// built, however differently they are spelled.
pub proof fn law_same_runtime_type_refused(d: InterfaceDefinition, i: int, j: int)
    requires
        0 <= i < j < d.implementers@.len(),
        d.same_runtime_type(i, j),
    ensures
        d.mark_of() matches Err(MarkError::DuplicateImplementer { .. }),
{
    let clash = d.clashes();
    assert(clash[j]);
    lemma_first_true_from(clash, 0);
    let k = first_true(clash)->0;
    assert(clash[k]);
    let same = d.same_as(k);
    let w = choose|w: int| 0 <= w < k && #[trigger] d.same_runtime_type(w, k);
    assert(same[w]);
    lemma_first_true_from(same, 0);
}

/// A name set in two merged fragments is refused, and the first problem
/// reported cites both places.
pub proof fn law_name_twice_refused(a: MetaView, b: MetaView)
    requires
        a.name.is_some(),
        b.name.is_some(),
    ensures
        merge(a, b) is Err,
        merge_all(a, b).1[0] == (Diagnostic::Duplicate {
            key: Key::Name,
            first: a.name.unwrap().1,
            second: b.name.unwrap().1,
        }),
{
    let (m, ds) = merge_all(a, b);
    let d1 = keep_once(Key::Name, a.name, b.name).1;
    let d2 = keep_once(Key::Description, a.description, b.description).1;
    let d3 = keep_once(Key::Context, a.context, b.context).1;
    let d4 = keep_once(Key::Scalar, a.scalar, b.scalar).1;
    lemma_gather_keeps_prefix(a.implementers, b.implementers, 0, d1 + d2 + d3 + d4);
}

/// Wherever the next key is not one of the configuration's, parsing fails
/// with an unknown-attribute diagnostic at that key.
pub proof fn law_unknown_key_refused(s: Seq<char>, f: usize, i: int, m: MetaView)
    requires
        0 <= skip_space(s, i) < s.len(),
        is_ident_start(s[skip_space(s, i)]),
        key_of(s.subrange(skip_space(s, i), ident_end(s, skip_space(s, i)))) == KeyWord::Unknown,
    ensures
        parse_items(s, f, i, m) == Err::<MetaView, Diagnostic>(
            Diagnostic::UnknownAttribute { at: loc_at(f, skip_space(s, i)) },
        ),
{
}

} // verus!
